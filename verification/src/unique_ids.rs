//! A unique-id service using a 56-bit unsigned integer id inspired by twitter's snowflake
//! ids.

use vstd::prelude::*;

use core::time::Duration;
use std::time::SystemTime;

verus! {

/// Milliseconds from the Unix epoch to the earliest valid id generation, Wed Mar 29 2023
/// 03:27:39 UTC. This must remain constant across the time in which these ids are in use.
pub const ID_EPOCH_MILLIS: u64 = 1_680_060_459_710;

/// One more than the largest timestamp an id can hold (42 bits).
pub const TIMESTAMP_LIMIT: u64 = 0x400_0000_0000;

/// One more than the largest node number an id can hold (6 bits).
pub const NODE_LIMIT: u8 = 64;

#[verifier::external_type_specification]
#[verifier::external_body]
pub struct ExSystemTime(SystemTime);

/// std's `SystemTime::now`: the current time of the system clock. Nothing is stated of it:
/// it depends on the moment of the call.
#[verifier::external_body]
fn system_now() -> SystemTime {
    SystemTime::now()
}

/// std's `SystemTime::duration_since`, against the Unix epoch: the time elapsed since the
/// epoch, or nothing for a time before it. Nothing is stated of the result, as `SystemTime`
/// and `Duration` are opaque here.
#[verifier::external_body]
fn since_unix_epoch(t: &SystemTime) -> Option<Duration> {
    t.duration_since(std::time::UNIX_EPOCH).ok()
}

/// std's `Duration::as_millis`: the whole milliseconds of a duration. Nothing is stated of
/// the result, as `Duration` is opaque here.
#[verifier::external_body]
fn duration_millis(d: &Duration) -> u128 {
    d.as_millis()
}

/// The number that an id packs from its parts.
///
/// ```text
/// 63       56                                                 14       8       0
///  ├reserved┤ ├────────────────────timestamp───────────────────┤ ├──id─┤ ├─count─┤
///  ├───8────┤ ├────────────────────────42──────────────────────┤ ├──6──┤ ├───8───┤
/// ```
pub open spec fn id_value(timestamp: u64, node: u8, count: u8) -> nat {
    (timestamp * 0x4000 + node * 0x100 + count) as nat
}

/// An opaque, unique id type using local system time to provide a pseudo ordering between
/// ids, so long as nodes' clocks only grow monotonically and never skew from one-another.
/// Every node can calculate this id with no network communication.
///
/// This scheme allows a maximum of 256 unique ids per millisecond by allocating 8 bits to
/// a monotonically-increasing counter that resets every millisecond. With the 42 bits
/// allocated to the millisecond-precise timestamp, this id has a maximum lifespan of
/// ~139.46 years from [`ID_EPOCH_MILLIS`].
#[derive(Debug, PartialEq, Eq, Hash, Structural)]
pub struct Id(u64);

impl View for Id {
    type V = u64;

    closed spec fn view(&self) -> u64 {
        self.0
    }
}

impl Id {
    /// Constructs a new Id from its component uints. The timestamp must fit in 42 bits and
    /// the node number in 6.
    pub fn new(timestamp: u64, id: u8, count: u8) -> (res: Self)
        requires
            timestamp < TIMESTAMP_LIMIT,
            id < NODE_LIMIT,
        ensures
            res@ == id_value(timestamp, id, count),
    {
        let idw: u64 = id as u64;
        let countw: u64 = count as u64;
        assert(((timestamp << 14u64) | (idw << 8u64) | countw) == timestamp * 0x4000 + idw * 0x100
            + countw) by (bit_vector)
            requires
                timestamp < 0x400_0000_0000u64,
                idw < 64u64,
                countw < 256u64,
        ;
        Id((timestamp << 14u64) | (idw << 8u64) | countw)
    }

    /// The id as a number, its wire form.
    pub fn value(&self) -> (res: u64)
        ensures
            res == self@,
    {
        self.0
    }
}

/// A request for a new [`Id`].
#[derive(Debug, Default)]
pub struct Generate {}

/// A successful response.
#[derive(Debug)]
pub struct GenerateOk {
    pub id: Id,
}

impl Generate {
    pub fn ok(self, id: Id) -> (res: GenerateOk)
        ensures
            res.id == id,
    {
        GenerateOk { id }
    }
}

/// A source of the current time.
pub trait Clock {
    fn now(&self) -> SystemTime;
}

/// A source of the local node's id number.
pub trait IdSource {
    fn get(&self) -> u8;
}

/// The system's own clock.
pub struct SystemClock;

impl Clock for SystemClock {
    fn now(&self) -> SystemTime {
        system_now()
    }
}

/// The low six bits of a process id, taken as a node number: process ids are probably
/// vended sequentially, or their low bits collide rarely enough to treat them as unique.
pub fn node_bits(pid: u32) -> (res: u8)
    ensures
        res == pid % 64,
        res < NODE_LIMIT,
{
    let low: u8 = (pid & 0xff) as u8;
    let res: u8 = low & 0b0011_1111u8;
    assert(res == pid % 64) by (bit_vector)
        requires
            low == (pid & 0xff) as u8,
            res == low & 0b0011_1111u8,
    ;
    res
}

/// The various stateful resources needed to generate an [`Id`].
pub struct Source<C: Clock, I: IdSource> {
    /// A function returning the current time.
    clock: C,
    /// The last timestamp used in an id.
    last: u64,
    /// A function returning the local node's id number.
    node_id: I,
    /// The number of ids already vended at the last timestamp, less one.
    counter: u8,
}

/// Where a source stands after vending an id at `timestamp`: a new millisecond restarts
/// the count, the same millisecond counts one more.
pub open spec fn step(last: u64, counter: u8, timestamp: u64) -> (u64, u8) {
    if timestamp == last {
        (last, (counter + 1) as u8)
    } else {
        (timestamp, 0)
    }
}

/// Whether an id can be vended at `timestamp`: the timestamp fits in its 42 bits, and the
/// millisecond has not used up its 256 ids.
pub open spec fn can_vend(last: u64, counter: u8, timestamp: u64) -> bool {
    timestamp < TIMESTAMP_LIMIT && !(timestamp == last && counter == 255)
}

impl<C: Clock, I: IdSource> Source<C, I> {
    pub fn new(clock: C, node_id: I) -> (res: Self)
        ensures
            res.last() == 0,
            res.counter() == 0,
            res.clock() == clock,
            res.node_source() == node_id,
    {
        Self { clock, node_id, last: 0, counter: 0 }
    }

    pub closed spec fn last(&self) -> u64 {
        self.last
    }

    pub closed spec fn counter(&self) -> u8 {
        self.counter
    }

    pub closed spec fn clock(&self) -> C {
        self.clock
    }

    pub closed spec fn node_source(&self) -> I {
        self.node_id
    }
}

/// Vends the id for `timestamp` on node `node`, and moves the source past it.
pub fn gen_at<C: Clock, I: IdSource>(
    state: &mut Source<C, I>,
    req: Generate,
    timestamp: u64,
    node: u8,
) -> (res: GenerateOk)
    requires
        can_vend(old(state).last(), old(state).counter(), timestamp),
        node < NODE_LIMIT,
    ensures
        (final(state).last(), final(state).counter()) == step(
            old(state).last(),
            old(state).counter(),
            timestamp,
        ),
        final(state).clock() == old(state).clock(),
        final(state).node_source() == old(state).node_source(),
        res.id@ == id_value(timestamp, node, final(state).counter()),
{
    if timestamp == state.last {
        state.counter = state.counter + 1;
    } else {
        state.last = timestamp;
        state.counter = 0;
    }
    req.ok(Id::new(timestamp, node, state.counter))
}

/// The timestamp of an id vended when the clock reads `millis` milliseconds after the Unix
/// epoch: the milliseconds since [`ID_EPOCH_MILLIS`], provided the clock reads no earlier
/// than that and they fit in 42 bits.
pub open spec fn timestamp_at(millis: u128) -> Option<u64> {
    if millis < ID_EPOCH_MILLIS || millis - ID_EPOCH_MILLIS >= TIMESTAMP_LIMIT {
        None
    } else {
        Some((millis - ID_EPOCH_MILLIS) as u64)
    }
}

/// Vends the id for a clock that reads `millis` milliseconds after the Unix epoch, on node
/// `node`. No id is vended, and the source is left as it was, when the clock reads before
/// [`ID_EPOCH_MILLIS`] or beyond what 42 bits of milliseconds hold, when the millisecond
/// has used up its 256 ids, or when the node number is wider than 6 bits.
pub fn gen_from_millis<C: Clock, I: IdSource>(
    state: &mut Source<C, I>,
    req: Generate,
    millis: u128,
    node: u8,
) -> (res: Option<GenerateOk>)
    ensures
        final(state).clock() == old(state).clock(),
        final(state).node_source() == old(state).node_source(),
        match timestamp_at(millis) {
            Some(t) => if node < NODE_LIMIT && can_vend(old(state).last(), old(state).counter(), t) {
                &&& (final(state).last(), final(state).counter()) == step(
                    old(state).last(),
                    old(state).counter(),
                    t,
                )
                &&& res matches Some(ok) && ok.id@ == id_value(t, node, final(state).counter())
            } else {
                &&& res is None
                &&& final(state).last() == old(state).last()
                &&& final(state).counter() == old(state).counter()
            },
            None => {
                &&& res is None
                &&& final(state).last() == old(state).last()
                &&& final(state).counter() == old(state).counter()
            },
        },
{
    if millis < ID_EPOCH_MILLIS as u128 {
        return None;
    }
    let elapsed: u128 = millis - ID_EPOCH_MILLIS as u128;
    if elapsed >= TIMESTAMP_LIMIT as u128 {
        return None;
    }
    let timestamp: u64 = elapsed as u64;
    if node >= NODE_LIMIT {
        return None;
    }
    if timestamp == state.last && state.counter == 255 {
        return None;
    }
    Some(gen_at(state, req, timestamp, node))
}

/// The milliseconds since the Unix epoch that `clock` reads now, or nothing when it reads a
/// time before the epoch. What it reads depends on the moment of the call, so nothing is
/// stated of the result; [`gen_sync`] states what it does with it.
pub fn clock_millis<C: Clock>(clock: &C) -> (res: Option<u128>) {
    let now = clock.now();
    match since_unix_epoch(&now) {
        Some(d) => Some(duration_millis(&d)),
        None => None,
    }
}

/// What vending an id does when the clock reads `millis` milliseconds after the Unix epoch
/// on node `node`, from the last timestamp and counter `last` and `counter`: the timestamp
/// and counter after it and the id vended, or nothing when no id can be vended.
pub open spec fn vended(last: u64, counter: u8, millis: u128, node: u8) -> Option<(u64, u8, nat)> {
    match timestamp_at(millis) {
        Some(t) => if node < NODE_LIMIT && can_vend(last, counter, t) {
            let (l, c) = step(last, counter, t);
            Some((l, c, id_value(t, node, c)))
        } else {
            None
        },
        None => None,
    }
}

/// Vends the next id, reading the source's clock and node number, as [`gen_from_millis`]
/// does for what they read: the id carries the timestamp of the clock's reading and the
/// node number that the node source gave. No id is vended, and the source is left as it
/// was, also when the clock reads before the Unix epoch.
pub fn gen_sync<C: Clock, I: IdSource>(state: &mut Source<C, I>, req: Generate) -> (res: Option<
    GenerateOk,
>)
    ensures
        final(state).clock() == old(state).clock(),
        final(state).node_source() == old(state).node_source(),
        match res {
            Some(ok) => exists|t: u64, n: u8|
                #![trigger id_value(t, n, final(state).counter())]
                {
                    &&& call_ensures(I::get, (&old(state).node_source(),), n)
                    &&& n < NODE_LIMIT
                    &&& can_vend(old(state).last(), old(state).counter(), t)
                    &&& (final(state).last(), final(state).counter()) == step(
                        old(state).last(),
                        old(state).counter(),
                        t,
                    )
                    &&& ok.id@ == id_value(t, n, final(state).counter())
                },
            None => final(state).last() == old(state).last() && final(state).counter() == old(
                state,
            ).counter(),
        },
        exists|read: Option<u128>|
            #![trigger call_ensures(clock_millis::<C>, (&old(state).clock(),), read)]
            {
                &&& call_ensures(clock_millis::<C>, (&old(state).clock(),), read)
                &&& match read {
                    None => res is None,
                    Some(millis) => exists|n: u8|
                        #![trigger call_ensures(I::get, (&old(state).node_source(),), n)]
                        {
                            &&& call_ensures(I::get, (&old(state).node_source(),), n)
                            &&& match vended(old(state).last(), old(state).counter(), millis, n) {
                                Some((l, c, id)) => res matches Some(ok) && ok.id@ == id
                                    && final(state).last() == l && final(state).counter() == c,
                                None => res is None,
                            }
                        },
                }
            },
{
    let reading = clock_millis(&state.clock);
    proof {
        assert(call_ensures(clock_millis::<C>, (&old(state).clock(),), reading));
    }
    let millis = match reading {
        Some(m) => m,
        None => {
            return None;
        },
    };
    let node = state.node_id.get();
    let res = gen_from_millis(state, req, millis, node);
    proof {
        if res is Some {
            let t = timestamp_at(millis)->0;
            assert(res->0.id@ == id_value(t, node, state.counter()));
        }
    }
    res
}

/// The timestamp of an id is the whole milliseconds elapsed since [`ID_EPOCH_MILLIS`] when
/// the clock read `millis` milliseconds after the Unix epoch; a reading before that epoch, or
/// beyond 42 bits of milliseconds after it, gives none.
pub proof fn lemma_timestamp_is_elapsed(millis: u128)
    ensures
        ID_EPOCH_MILLIS <= millis < ID_EPOCH_MILLIS + TIMESTAMP_LIMIT ==> (timestamp_at(millis) matches Some(
            t,
        ) && t == millis - ID_EPOCH_MILLIS),
        millis < ID_EPOCH_MILLIS || millis >= ID_EPOCH_MILLIS + TIMESTAMP_LIMIT ==> timestamp_at(
            millis,
        ) is None,
{
}

/// What vending on a clock reading gives, in numbers. A reading in another millisecond than
/// the last id's starts that millisecond's count at zero; a reading in the same millisecond
/// counts on, until 256 ids have been vended in it. The id packs the elapsed milliseconds
/// above bit 14, the node number above bit 8 and the count below.
pub proof fn lemma_vended_from_reading(last: u64, counter: u8, millis: u128, node: u8)
    requires
        node < NODE_LIMIT,
        ID_EPOCH_MILLIS <= millis < ID_EPOCH_MILLIS + TIMESTAMP_LIMIT,
    ensures
        millis - ID_EPOCH_MILLIS != last ==> vended(last, counter, millis, node) == Some(
            (
                (millis - ID_EPOCH_MILLIS) as u64,
                0u8,
                ((millis - ID_EPOCH_MILLIS) * 16384 + node * 256) as nat,
            ),
        ),
        millis - ID_EPOCH_MILLIS == last && counter < 255 ==> vended(last, counter, millis, node)
            == Some((last, (counter + 1) as u8, (last * 16384 + node * 256 + counter + 1) as nat)),
        millis - ID_EPOCH_MILLIS == last && counter == 255 ==> vended(last, counter, millis, node)
            is None,
{
}

/// Ids pack their parts without loss: ids built from different parts differ.
pub proof fn lemma_id_value_injective(t1: u64, n1: u8, c1: u8, t2: u64, n2: u8, c2: u8)
    requires
        n1 < NODE_LIMIT,
        n2 < NODE_LIMIT,
        id_value(t1, n1, c1) == id_value(t2, n2, c2),
    ensures
        t1 == t2 && n1 == n2 && c1 == c2,
{
    let v1 = id_value(t1, n1, c1) as int;
    assert(v1 == t1 * 0x4000 + (n1 * 0x100 + c1));
    assert(0 <= n1 * 0x100 + c1 < 0x4000);
    assert(0 <= n2 * 0x100 + c2 < 0x4000);
    assert(t1 == t2) by (nonlinear_arith)
        requires
            t1 * 0x4000 + (n1 * 0x100 + c1) == t2 * 0x4000 + (n2 * 0x100 + c2),
            0 <= n1 * 0x100 + c1 < 0x4000,
            0 <= n2 * 0x100 + c2 < 0x4000,
            t1 >= 0,
            t2 >= 0,
    ;
    assert(n1 == n2) by (nonlinear_arith)
        requires
            n1 * 0x100 + c1 == n2 * 0x100 + c2,
            0 <= c1 < 0x100,
            0 <= c2 < 0x100,
            n1 >= 0,
            n2 >= 0,
    ;
}

/// Ids order by time: an id of a later millisecond is larger, whatever its other parts.
pub proof fn lemma_id_value_time_ordered(t1: u64, n1: u8, c1: u8, t2: u64, n2: u8, c2: u8)
    requires
        t1 < t2,
        n1 < NODE_LIMIT,
    ensures
        id_value(t1, n1, c1) < id_value(t2, n2, c2),
{
    assert(t1 * 0x4000 + 0x4000 <= t2 * 0x4000) by (nonlinear_arith)
        requires
            t1 < t2,
    ;
}

/// Whether the millisecond and count `(t, c)` come no later than `(last, counter)`.
pub open spec fn vended_by(t: u64, c: u8, last: u64, counter: u8) -> bool {
    t < last || (t == last && c <= counter)
}

/// With a clock that never runs backwards, a source never vends an id twice: whatever it
/// vended before stands no later than where it stands, and the id it vends next stands
/// strictly later, so the two differ; and the new position covers everything vended.
pub proof fn lemma_next_id_is_fresh(last: u64, counter: u8, t: u64, c: u8, now: u64, node: u8)
    requires
        vended_by(t, c, last, counter),
        last <= now,
        can_vend(last, counter, now),
        node < NODE_LIMIT,
    ensures
        id_value(now, node, step(last, counter, now).1) != id_value(t, node, c),
        vended_by(t, c, step(last, counter, now).0, step(last, counter, now).1),
        vended_by(now, step(last, counter, now).1, step(last, counter, now).0, step(last, counter, now).1),
{
    let (l2, c2) = step(last, counter, now);
    if id_value(now, node, c2) == id_value(t, node, c) {
        lemma_id_value_injective(now, node, c2, t, node, c);
    }
}

} // verus!
