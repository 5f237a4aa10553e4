use vstd::prelude::*;
use byteorder::{BigEndian, ByteOrder, WriteBytesExt};

verus! {

/// A big-endian unsigned 32-bit number read from four bytes.
pub open spec fn be_u32(b: Seq<u8>) -> int {
    b[0] * 0x100_0000 + b[1] * 0x1_0000 + b[2] * 0x100 + b[3]
}

/// A big-endian unsigned 64-bit number read from eight bytes.
pub open spec fn be_u64(b: Seq<u8>) -> int {
    be_u32(b.subrange(0, 4)) * 0x1_0000_0000 + be_u32(b.subrange(4, 8))
}

/// A big-endian two's-complement signed 64-bit number read from eight bytes.
pub open spec fn be_i64(b: Seq<u8>) -> int {
    let u = be_u64(b);
    if u >= 0x8000_0000_0000_0000 {
        u - 0x1_0000_0000_0000_0000
    } else {
        u
    }
}

/// `b` is a ping payload carrying the send time `sec` seconds and `milli`
/// milliseconds after the Unix epoch: the seconds as a big-endian `i64`,
/// then the milliseconds as a big-endian `u32`.
pub open spec fn is_ping_payload(b: Seq<u8>, sec: i64, milli: u32) -> bool {
    &&& b.len() == 12
    &&& be_i64(b.subrange(0, 8)) == sec
    &&& be_u32(b.subrange(8, 12)) == milli
}

/// The round-trip delay in milliseconds between a ping sent at
/// (`sent_sec`, `sent_milli`) and its pong seen at (`now_sec`, `now_milli`).
pub open spec fn delay_spec(sent_sec: i64, sent_milli: u32, now_sec: i64, now_milli: u32) -> int {
    1000 * (now_sec - sent_sec) + (now_milli - sent_milli)
}

/// `byteorder`'s `BigEndian::read_i64`: the first eight bytes of `buf` as a
/// big-endian `i64`. It panics on a shorter buffer, which `requires` rules out.
#[verifier::external_body]
fn read_be_i64(buf: &[u8]) -> (r: i64)
    requires
        buf@.len() >= 8,
    ensures
        r == be_i64(buf@.subrange(0, 8)),
{
    BigEndian::read_i64(buf)
}

/// `byteorder`'s `BigEndian::read_u32`: the first four bytes of `buf` as a
/// big-endian `u32`. It panics on a shorter buffer, which `requires` rules out.
#[verifier::external_body]
fn read_be_u32(buf: &[u8]) -> (r: u32)
    requires
        buf@.len() >= 4,
    ensures
        r == be_u32(buf@.subrange(0, 4)),
{
    BigEndian::read_u32(buf)
}

/// `byteorder`'s `WriteBytesExt::write_i64::<BigEndian>` on a `Vec<u8>`:
/// appends the eight big-endian bytes of `n`. Writing into a `Vec` cannot
/// fail, so the `io::Result` is always `Ok`.
#[verifier::external_body]
fn write_be_i64(buf: &mut Vec<u8>, n: i64)
    ensures
        final(buf)@.len() == old(buf)@.len() + 8,
        final(buf)@.subrange(0, old(buf)@.len() as int) == old(buf)@,
        be_i64(final(buf)@.subrange(old(buf)@.len() as int, old(buf)@.len() + 8int)) == n,
{
    buf.write_i64::<BigEndian>(n).unwrap()
}

/// `byteorder`'s `WriteBytesExt::write_u32::<BigEndian>` on a `Vec<u8>`:
/// appends the four big-endian bytes of `n`. Writing into a `Vec` cannot
/// fail, so the `io::Result` is always `Ok`.
#[verifier::external_body]
fn write_be_u32(buf: &mut Vec<u8>, n: u32)
    ensures
        final(buf)@.len() == old(buf)@.len() + 4,
        final(buf)@.subrange(0, old(buf)@.len() as int) == old(buf)@,
        be_u32(final(buf)@.subrange(old(buf)@.len() as int, old(buf)@.len() + 4int)) == n,
{
    buf.write_u32::<BigEndian>(n).unwrap()
}

/// The current time as chrono gives it: `DateTime::<Utc>::from` applied to
/// std's `SystemTime::now()`, read as its `timestamp()` (whole seconds since
/// the Unix epoch, negative before it) and `timestamp_subsec_millis()`. The
/// conversion splits the clock reading into seconds and a fraction below one
/// second, before as well as after the epoch, so the milliseconds are below
/// 1000. The seconds come from the clock; chrono builds the value with
/// `Utc.timestamp_opt(..).unwrap()`, so every value it returns lies in its
/// range of dates, years -262143 to 262142, which is within 10^13 seconds of
/// the epoch either way. The wrapper takes no argument: the instant is the
/// machine's clock reading.
/// Not stated: chrono panics for a clock reading outside its range of dates,
/// more than about 262,000 years away from 1970.
#[verifier::external_body]
fn utc_now_parts() -> (r: (i64, u32))
    ensures
        -10_000_000_000_000 <= r.0 <= 10_000_000_000_000,
        r.1 < 1000,
{
    let dt = chrono::DateTime::<chrono::Utc>::from(std::time::SystemTime::now());
    (dt.timestamp(), dt.timestamp_subsec_millis())
}

/// The payload of a ping sent at `sec` seconds and `milli` milliseconds.
pub fn ping_payload(sec: i64, milli: u32) -> (b: Vec<u8>)
    ensures
        is_ping_payload(b@, sec, milli),
{
    let mut b: Vec<u8> = Vec::new();
    write_be_i64(&mut b, sec);
    write_be_u32(&mut b, milli);
    assert(b@.subrange(0, 8) =~= b@.subrange(0, 8).subrange(0, 8));
    b
}

/// The payload of a ping sent now: the current time in the layout of
/// [`ping_payload`].
pub fn make_ping_payload() -> (b: Vec<u8>)
    ensures
        exists|sec: i64, milli: u32| -10_000_000_000_000 <= sec <= 10_000_000_000_000 && milli < 1000
            && #[trigger] is_ping_payload(b@, sec, milli),
{
    let (sec, milli) = utc_now_parts();
    let b = ping_payload(sec, milli);
    assert(is_ping_payload(b@, sec, milli));
    b
}

/// The send time carried by the first twelve bytes of a pong's payload.
pub fn parse_ping_payload(payload: &[u8]) -> (r: (i64, u32))
    requires
        payload@.len() >= 12,
    ensures
        r.0 == be_i64(payload@.subrange(0, 8)),
        r.1 == be_u32(payload@.subrange(8, 12)),
{
    let (head, tail) = payload.split_at(8);
    let sec = read_be_i64(head);
    let milli = read_be_u32(tail);
    assert(tail@.subrange(0, 4) =~= payload@.subrange(8, 12));
    assert(head@.subrange(0, 8) =~= payload@.subrange(0, 8));
    (sec, milli)
}

/// The round-trip delay in milliseconds, when it fits in an `i64`.
pub fn delay_ms(sent_sec: i64, sent_milli: u32, now_sec: i64, now_milli: u32) -> (r: Option<i64>)
    ensures
        r matches Some(d) ==> d == delay_spec(sent_sec, sent_milli, now_sec, now_milli),
        r is None <==> !(i64::MIN <= delay_spec(sent_sec, sent_milli, now_sec, now_milli) <= i64::MAX),
{
    let secs = now_sec as i128 - sent_sec as i128;
    let millis = now_milli as i128 - sent_milli as i128;
    let d = 1000 * secs + millis;
    if i64::MIN as i128 <= d && d <= i64::MAX as i128 {
        Some(d as i64)
    } else {
        None
    }
}

/// The delay of the pong whose payload is `payload`, measured against the
/// current time; `None` when it does not fit in an `i64`. It always fits
/// when the payload's seconds lie within 10^13 of the epoch, as those of
/// every payload made by [`make_ping_payload`] do.
pub fn get_diff(payload: &[u8]) -> (r: Option<i64>)
    requires
        payload@.len() >= 12,
    ensures
        -10_000_000_000_000 <= be_i64(payload@.subrange(0, 8)) <= 10_000_000_000_000 ==> r is Some,
        r matches Some(d) ==> exists|now_sec: i64, now_milli: u32|
            -10_000_000_000_000 <= now_sec <= 10_000_000_000_000 && now_milli < 1000
            && d == #[trigger] delay_spec(
                be_i64(payload@.subrange(0, 8)) as i64,
                be_u32(payload@.subrange(8, 12)) as u32,
                now_sec,
                now_milli,
            ),
        r is None ==> exists|now_sec: i64, now_milli: u32|
            -10_000_000_000_000 <= now_sec <= 10_000_000_000_000 && now_milli < 1000
            && !(i64::MIN <= #[trigger] delay_spec(
                be_i64(payload@.subrange(0, 8)) as i64,
                be_u32(payload@.subrange(8, 12)) as u32,
                now_sec,
                now_milli,
            ) <= i64::MAX),
{
    let (sec, milli) = parse_ping_payload(payload);
    let (now_sec, now_milli) = utc_now_parts();
    let r = delay_ms(sec, milli, now_sec, now_milli);
    assert(be_i64(payload@.subrange(0, 8)) as i64 == sec);
    assert(be_u32(payload@.subrange(8, 12)) as u32 == milli);
    if r.is_none() {
        assert(!(i64::MIN <= delay_spec(
            be_i64(payload@.subrange(0, 8)) as i64,
            be_u32(payload@.subrange(8, 12)) as u32,
            now_sec,
            now_milli,
        ) <= i64::MAX));
    }
    if let Some(d) = r {
        assert(d == delay_spec(
            be_i64(payload@.subrange(0, 8)) as i64,
            be_u32(payload@.subrange(8, 12)) as u32,
            now_sec,
            now_milli,
        ));
    }
    r
}

/// Reading a ping payload gives back the time that was written into it, and a
/// pong answered at that same instant has no delay.
pub proof fn lemma_ping_round_trip(b: Seq<u8>, sec: i64, milli: u32)
    requires
        is_ping_payload(b, sec, milli),
    ensures
        be_i64(b.subrange(0, 8)) == sec,
        be_u32(b.subrange(8, 12)) == milli,
        delay_spec(sec, milli, sec, milli) == 0,
{
}

} // verus!
