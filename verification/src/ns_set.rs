//! The decisions of the `NSSet` helpers that build a set's host dictionary
//! and look up members.
//!
//! These helpers talk to the Objective-C runtime at every step: they send
//! messages (`count`, `objectAtIndex:`, `nextObject`, `copy`, `isEqual:`),
//! read guest memory, take variadic arguments, and insert into the
//! dictionary under construction. Here each helper is a state machine: the
//! caller performs the request it returns and hands back the reply, and the
//! machine decides the next request.

use vstd::prelude::*;

verus! {

/// `nil`: the null object pointer.
pub const NIL: u32 = 0;

/// What a helper asks of the runtime.
#[derive(Clone, Copy, Debug, PartialEq, Eq)]
pub enum SetRequest {
    /// `+[NSNull null]`; reply: the object.
    NullObject,
    /// `[array count]`; reply: the count.
    ArrayCount { array: u32 },
    /// `[array objectAtIndex:index]`; reply: the object.
    ArrayObjectAt { array: u32, index: u32 },
    /// `[set objectEnumerator]`; reply: the enumerator (maybe `nil`).
    ObjectEnumerator { set: u32 },
    /// `[enumerator nextObject]`; reply: the object (`nil` at the end).
    NextObject { enumerator: u32 },
    /// The next variadic argument; reply: the object (`nil` ends the list).
    NextVararg,
    /// Read the object pointer stored at guest address `address`; reply: it.
    ReadObjectPointer { address: u32 },
    /// `[object copy]`; reply: the (owned) copy.
    Copy { object: u32 },
    /// Release one reference to `object`; reply: acknowledgement.
    Release { object: u32 },
    /// Insert `key` (retained, not copied) with `value` into the dictionary
    /// being built; reply: acknowledgement.
    Insert { key: u32, value: u32 },
    /// The dictionary is complete.
    Done,
}

/// What the runtime answers.
#[derive(Clone, Copy, Debug, PartialEq, Eq)]
pub enum SetReply {
    Object(u32),
    Count(u32),
    Ack,
}

/// The object carried by a reply.
pub open spec fn object_of(r: SetReply) -> u32 {
    match r {
        SetReply::Object(o) => o,
        _ => NIL,
    }
}

/// The object in a reply that must carry one.
fn reply_object(r: SetReply) -> (o: u32)
    requires
        r is Object,
    ensures
        o == object_of(r),
{
    match r {
        SetReply::Object(o) => o,
        _ => NIL,
    }
}

// ---------------------------------------------------------------------------
// +setWithObjects: / -initWithObjects: (nil-terminated variadic list)
// ---------------------------------------------------------------------------

/// Where the variadic-list builder stands.
#[derive(Clone, Copy, Debug, PartialEq, Eq)]
pub enum ObjectsPhase {
    AwaitNull,
    AwaitInsert,
    AwaitArg,
    Finished,
}

/// Building a set from a first object and a `nil`-terminated list of
/// further objects.
#[derive(Clone, Copy, Debug)]
pub struct ObjectsBuild {
    pub first: u32,
    pub null: u32,
    pub phase: ObjectsPhase,
}

/// The reply kind each phase waits for.
pub open spec fn objects_accepts(s: ObjectsBuild, r: SetReply) -> bool {
    match s.phase {
        ObjectsPhase::AwaitNull => r is Object,
        ObjectsPhase::AwaitInsert => r is Ack,
        ObjectsPhase::AwaitArg => r is Object,
        ObjectsPhase::Finished => true,
    }
}

/// One step: the first object is inserted as it is (even `nil`), then each
/// argument until the first `nil`, each with `NSNull` as its value.
pub open spec fn objects_step(s: ObjectsBuild, r: SetReply) -> (ObjectsBuild, SetRequest) {
    match s.phase {
        ObjectsPhase::AwaitNull => (
            ObjectsBuild { null: object_of(r), phase: ObjectsPhase::AwaitInsert, ..s },
            SetRequest::Insert { key: s.first, value: object_of(r) },
        ),
        ObjectsPhase::AwaitInsert => (
            ObjectsBuild { phase: ObjectsPhase::AwaitArg, ..s },
            SetRequest::NextVararg,
        ),
        ObjectsPhase::AwaitArg => if object_of(r) == NIL {
            (ObjectsBuild { phase: ObjectsPhase::Finished, ..s }, SetRequest::Done)
        } else {
            (
                ObjectsBuild { phase: ObjectsPhase::AwaitInsert, ..s },
                SetRequest::Insert { key: object_of(r), value: s.null },
            )
        },
        ObjectsPhase::Finished => (s, SetRequest::Done),
    }
}

impl ObjectsBuild {
    /// Starts building from `first_obj`: the first request fetches `NSNull`.
    pub fn start(first_obj: u32) -> (res: (ObjectsBuild, SetRequest))
        ensures
            res.0 == (ObjectsBuild { first: first_obj, null: NIL, phase: ObjectsPhase::AwaitNull }),
            res.1 == SetRequest::NullObject,
    {
        (ObjectsBuild { first: first_obj, null: NIL, phase: ObjectsPhase::AwaitNull }, SetRequest::NullObject)
    }
}

/// The decision step of building a set from `first_obj` and the variadic
/// arguments that follow it.
pub fn set_from_objects(state: &mut ObjectsBuild, reply: SetReply) -> (req: SetRequest)
    requires
        objects_accepts(*old(state), reply),
    ensures
        (*final(state), req) == objects_step(*old(state), reply),
{
    match state.phase {
        ObjectsPhase::AwaitNull => {
            let null = reply_object(reply);
            state.null = null;
            state.phase = ObjectsPhase::AwaitInsert;
            SetRequest::Insert { key: state.first, value: null }
        },
        ObjectsPhase::AwaitInsert => {
            state.phase = ObjectsPhase::AwaitArg;
            SetRequest::NextVararg
        },
        ObjectsPhase::AwaitArg => {
            let next_arg = reply_object(reply);
            if next_arg == NIL {
                state.phase = ObjectsPhase::Finished;
                SetRequest::Done
            } else {
                state.phase = ObjectsPhase::AwaitInsert;
                SetRequest::Insert { key: next_arg, value: state.null }
            }
        },
        ObjectsPhase::Finished => SetRequest::Done,
    }
}

/// The requests the variadic-list builder makes from state `s` with `req`
/// pending, driven by a runtime whose `NSNull` is `null` and whose variadic
/// arguments, from the `taken`-th on, are `args(taken)`, `args(taken + 1)`,
/// …; every insertion is acknowledged. At most `fuel` more steps.
pub open spec fn objects_trace(
    s: ObjectsBuild,
    req: SetRequest,
    null: u32,
    args: spec_fn(nat) -> u32,
    taken: nat,
    fuel: nat,
) -> Seq<SetRequest>
    decreases fuel,
{
    if fuel == 0 || req is Done {
        seq![req]
    } else {
        let reply = match req {
            SetRequest::NullObject => SetReply::Object(null),
            SetRequest::NextVararg => SetReply::Object(args(taken)),
            _ => SetReply::Ack,
        };
        let next_taken = if req is NextVararg {
            taken + 1
        } else {
            taken
        };
        let next = objects_step(s, reply);
        seq![req] + objects_trace(next.0, next.1, null, args, next_taken, (fuel - 1) as nat)
    }
}

proof fn lemma_objects_args_from(s: ObjectsBuild, null: u32, args: spec_fn(nat) -> u32, taken: nat, n: nat)
    requires
        s.phase is AwaitArg,
        s.null == null,
        taken <= n,
        forall|k: nat| k < n ==> #[trigger] args(k) != NIL,
        args(n) == NIL,
    ensures
        ({
            let t = objects_trace(s, SetRequest::NextVararg, null, args, taken, (2 * (n - taken) + 1) as nat);
            &&& inserted(t) == Seq::new((n - taken) as nat, |k: int| (args((taken + k) as nat), null))
            &&& t.last() is Done
        }),
    decreases n - taken,
{
    let fuel = (2 * (n - taken) + 1) as nat;
    let t = objects_trace(s, SetRequest::NextVararg, null, args, taken, fuel);
    let (s1, r1) = objects_step(s, SetReply::Object(args(taken)));
    let t1 = objects_trace(s1, r1, null, args, taken + 1, (fuel - 1) as nat);
    assert(t.drop_first() =~= t1);
    assert(t.last() == t1.last());
    let expected = Seq::new((n - taken) as nat, |k: int| (args((taken + k) as nat), null));
    if taken == n {
        assert(r1 is Done);
        assert(t1 == seq![r1]);
        assert(inserted(t1.drop_first()) =~= Seq::<(u32, u32)>::empty());
        assert(inserted(t) =~= expected);
    } else {
        let o = args(taken);
        assert(r1 == SetRequest::Insert { key: o, value: null });
        let (s2, r2) = objects_step(s1, SetReply::Ack);
        let t2 = objects_trace(s2, r2, null, args, taken + 1, (fuel - 2) as nat);
        assert(t1.drop_first() =~= t2);
        assert(t1.last() == t2.last());
        lemma_objects_args_from(s2, null, args, taken + 1, n);
        assert(inserted(t1) == seq![(o, null)] + inserted(t2));
        assert(inserted(t) =~= expected);
    }
}

/// The variadic-list builder inserts the first object, then each argument
/// before the first `nil`, in order, each with `NSNull` as its value, and
/// then finishes.
pub proof fn lemma_objects_inserts_until_nil(first: u32, null: u32, args: spec_fn(nat) -> u32, n: nat)
    requires
        forall|k: nat| k < n ==> #[trigger] args(k) != NIL,
        args(n) == NIL,
    ensures
        ({
            let s0 = ObjectsBuild { first, null: NIL, phase: ObjectsPhase::AwaitNull };
            let t = objects_trace(s0, SetRequest::NullObject, null, args, 0, (2 * n + 3) as nat);
            &&& inserted(t) == seq![(first, null)] + Seq::new(n, |k: int| (args(k as nat), null))
            &&& t.last() is Done
        }),
{
    let s0 = ObjectsBuild { first, null: NIL, phase: ObjectsPhase::AwaitNull };
    let fuel = (2 * n + 3) as nat;
    let t = objects_trace(s0, SetRequest::NullObject, null, args, 0, fuel);
    let (s1, r1) = objects_step(s0, SetReply::Object(null));
    let (s2, r2) = objects_step(s1, SetReply::Ack);
    let t1 = objects_trace(s1, r1, null, args, 0, (fuel - 1) as nat);
    let t2 = objects_trace(s2, r2, null, args, 0, (fuel - 2) as nat);
    assert(t.drop_first() =~= t1);
    assert(t1.drop_first() =~= t2);
    assert(t.last() == t1.last());
    assert(t1.last() == t2.last());
    lemma_objects_args_from(s2, null, args, 0, n);
    assert(inserted(t1) == seq![(first, null)] + inserted(t2));
    assert(inserted(t2) =~= Seq::new(n, |k: int| (args(k as nat), null)));
}

// ---------------------------------------------------------------------------
// -initWithArray: (the array may be nil)
// ---------------------------------------------------------------------------

/// Where the array builder stands.
#[derive(Clone, Copy, Debug, PartialEq, Eq)]
pub enum ArrayPhase {
    AwaitNull,
    AwaitCount,
    AwaitObject,
    AwaitInsert,
    Finished,
}

/// Building a set from the objects of an array, index by index.
#[derive(Clone, Copy, Debug)]
pub struct ArrayBuild {
    pub array: u32,
    pub null: u32,
    pub count: u32,
    pub index: u32,
    pub phase: ArrayPhase,
}

/// The state's own consistency: the index is within the count while objects
/// are being fetched.
pub open spec fn array_wf(s: ArrayBuild) -> bool {
    (s.phase is AwaitObject || s.phase is AwaitInsert) ==> s.index < s.count
}

/// The reply kind each phase waits for.
pub open spec fn array_accepts(s: ArrayBuild, r: SetReply) -> bool {
    match s.phase {
        ArrayPhase::AwaitNull => r is Object,
        ArrayPhase::AwaitCount => r is Count,
        ArrayPhase::AwaitObject => r is Object,
        ArrayPhase::AwaitInsert => r is Ack,
        ArrayPhase::Finished => true,
    }
}

/// The count carried by a reply.
pub open spec fn count_of(r: SetReply) -> u32 {
    match r {
        SetReply::Count(c) => c,
        _ => 0,
    }
}

/// One step: `nil` gives the empty set at once; otherwise the objects at
/// indices `0 .. count` are inserted in order, each with `NSNull`.
pub open spec fn array_step(s: ArrayBuild, r: SetReply) -> (ArrayBuild, SetRequest) {
    match s.phase {
        ArrayPhase::AwaitNull => (
            ArrayBuild { null: object_of(r), phase: ArrayPhase::AwaitCount, ..s },
            SetRequest::ArrayCount { array: s.array },
        ),
        ArrayPhase::AwaitCount => if count_of(r) == 0 {
            (ArrayBuild { count: 0, phase: ArrayPhase::Finished, ..s }, SetRequest::Done)
        } else {
            (
                ArrayBuild { count: count_of(r), index: 0, phase: ArrayPhase::AwaitObject, ..s },
                SetRequest::ArrayObjectAt { array: s.array, index: 0 },
            )
        },
        ArrayPhase::AwaitObject => (
            ArrayBuild { phase: ArrayPhase::AwaitInsert, ..s },
            SetRequest::Insert { key: object_of(r), value: s.null },
        ),
        ArrayPhase::AwaitInsert => if s.index + 1 == s.count {
            (ArrayBuild { phase: ArrayPhase::Finished, ..s }, SetRequest::Done)
        } else {
            (
                ArrayBuild { index: (s.index + 1) as u32, phase: ArrayPhase::AwaitObject, ..s },
                SetRequest::ArrayObjectAt { array: s.array, index: (s.index + 1) as u32 },
            )
        },
        ArrayPhase::Finished => (s, SetRequest::Done),
    }
}

impl ArrayBuild {
    /// Starts building from `array`: a `nil` array is finished at once.
    pub fn start(array: u32) -> (res: (ArrayBuild, SetRequest))
        ensures
            array_wf(res.0),
            array == NIL ==> res == (
                ArrayBuild { array, null: NIL, count: 0, index: 0, phase: ArrayPhase::Finished },
                SetRequest::Done,
            ),
            array != NIL ==> res == (
                ArrayBuild { array, null: NIL, count: 0, index: 0, phase: ArrayPhase::AwaitNull },
                SetRequest::NullObject,
            ),
    {
        if array == NIL {
            (ArrayBuild { array, null: NIL, count: 0, index: 0, phase: ArrayPhase::Finished }, SetRequest::Done)
        } else {
            (ArrayBuild { array, null: NIL, count: 0, index: 0, phase: ArrayPhase::AwaitNull }, SetRequest::NullObject)
        }
    }
}

/// The decision step of building a set from the objects of an array.
pub fn set_from_array(state: &mut ArrayBuild, reply: SetReply) -> (req: SetRequest)
    requires
        array_wf(*old(state)),
        array_accepts(*old(state), reply),
    ensures
        (*final(state), req) == array_step(*old(state), reply),
        array_wf(*final(state)),
{
    match state.phase {
        ArrayPhase::AwaitNull => {
            state.null = reply_object(reply);
            state.phase = ArrayPhase::AwaitCount;
            SetRequest::ArrayCount { array: state.array }
        },
        ArrayPhase::AwaitCount => {
            let count = match reply {
                SetReply::Count(c) => c,
                _ => 0,
            };
            if count == 0 {
                state.count = 0;
                state.phase = ArrayPhase::Finished;
                SetRequest::Done
            } else {
                state.count = count;
                state.index = 0;
                state.phase = ArrayPhase::AwaitObject;
                SetRequest::ArrayObjectAt { array: state.array, index: 0 }
            }
        },
        ArrayPhase::AwaitObject => {
            state.phase = ArrayPhase::AwaitInsert;
            SetRequest::Insert { key: reply_object(reply), value: state.null }
        },
        ArrayPhase::AwaitInsert => {
            if state.index + 1 == state.count {
                state.phase = ArrayPhase::Finished;
                SetRequest::Done
            } else {
                state.index = state.index + 1;
                state.phase = ArrayPhase::AwaitObject;
                SetRequest::ArrayObjectAt { array: state.array, index: state.index }
            }
        },
        ArrayPhase::Finished => SetRequest::Done,
    }
}

/// A runtime answering the array builder: `NSNull` is `null`, the array
/// holds `count` objects, the one at index `i` being `object_at(i)`, and
/// every insertion is acknowledged.
pub open spec fn array_reply(
    req: SetRequest,
    null: u32,
    count: u32,
    object_at: spec_fn(u32) -> u32,
) -> SetReply {
    match req {
        SetRequest::NullObject => SetReply::Object(null),
        SetRequest::ArrayCount { .. } => SetReply::Count(count),
        SetRequest::ArrayObjectAt { index, .. } => SetReply::Object(object_at(index)),
        _ => SetReply::Ack,
    }
}

/// The requests the array builder makes from state `s` with `req` pending,
/// driven by that runtime, for at most `fuel` more steps.
pub open spec fn array_trace(
    s: ArrayBuild,
    req: SetRequest,
    null: u32,
    count: u32,
    object_at: spec_fn(u32) -> u32,
    fuel: nat,
) -> Seq<SetRequest>
    decreases fuel,
{
    if fuel == 0 || req is Done {
        seq![req]
    } else {
        let next = array_step(s, array_reply(req, null, count, object_at));
        seq![req] + array_trace(next.0, next.1, null, count, object_at, (fuel - 1) as nat)
    }
}

/// The (key, value) pairs inserted along a run of requests, in order.
pub open spec fn inserted(trace: Seq<SetRequest>) -> Seq<(u32, u32)>
    decreases trace.len(),
{
    if trace.len() == 0 {
        Seq::empty()
    } else {
        let rest = inserted(trace.drop_first());
        match trace[0] {
            SetRequest::Insert { key, value } => seq![(key, value)] + rest,
            _ => rest,
        }
    }
}

proof fn lemma_array_objects_from(
    s: ArrayBuild,
    null: u32,
    count: u32,
    object_at: spec_fn(u32) -> u32,
)
    requires
        s.phase is AwaitObject,
        s.index < s.count,
        s.count == count,
        s.null == null,
    ensures
        ({
            let t = array_trace(
                s,
                SetRequest::ArrayObjectAt { array: s.array, index: s.index },
                null,
                count,
                object_at,
                (2 * (count - s.index)) as nat,
            );
            &&& inserted(t) == Seq::new(
                (count - s.index) as nat,
                |k: int| (object_at((s.index + k) as u32), null),
            )
            &&& t.last() is Done
        }),
    decreases count - s.index,
{
    let req = SetRequest::ArrayObjectAt { array: s.array, index: s.index };
    let fuel = (2 * (count - s.index)) as nat;
    let o = object_at(s.index);
    let (s1, r1) = array_step(s, array_reply(req, null, count, object_at));
    assert(r1 == SetRequest::Insert { key: o, value: null });
    let (s2, r2) = array_step(s1, array_reply(r1, null, count, object_at));
    let t = array_trace(s, req, null, count, object_at, fuel);
    let t1 = array_trace(s1, r1, null, count, object_at, (fuel - 1) as nat);
    let t2 = array_trace(s2, r2, null, count, object_at, (fuel - 2) as nat);
    assert(t == seq![req] + t1);
    assert(t1 == seq![r1] + t2);
    assert(t.drop_first() =~= t1);
    assert(t1.drop_first() =~= t2);
    let expected = Seq::new((count - s.index) as nat, |k: int| (object_at((s.index + k) as u32), null));
    if s.index + 1 == count {
        assert(r2 is Done);
        reveal_with_fuel(array_trace, 2);
        assert(t2 == seq![r2]);
        assert(inserted(t2.drop_first()) =~= Seq::<(u32, u32)>::empty());
        assert(inserted(t2) =~= Seq::<(u32, u32)>::empty());
        assert(inserted(t1) =~= seq![(o, null)]);
        assert(inserted(t) =~= expected);
        assert(t.last() == t1.last());
        assert(t1.last() == t2.last());
    } else {
        lemma_array_objects_from(s2, null, count, object_at);
        assert(r2 == SetRequest::ArrayObjectAt { array: s2.array, index: s2.index });
        assert((2 * (count - s2.index)) as nat == (fuel - 2) as nat);
        let rest = Seq::new((count - s2.index) as nat, |k: int| (object_at((s2.index + k) as u32), null));
        assert(inserted(t2) == rest);
        assert(inserted(t1) == seq![(o, null)] + rest);
        assert(inserted(t) == inserted(t1));
        assert(inserted(t) =~= expected);
        assert(t.last() == t1.last());
        assert(t1.last() == t2.last());
    }
}

/// The array builder inserts every object of the array, in index order,
/// each with `NSNull` as its value, and then finishes; a `nil` array or an
/// empty one gives no insertion.
pub proof fn lemma_array_inserts_each_object(
    array: u32,
    null: u32,
    count: u32,
    object_at: spec_fn(u32) -> u32,
)
    requires
        array != NIL,
    ensures
        ({
            let s0 = ArrayBuild { array, null: NIL, count: 0, index: 0, phase: ArrayPhase::AwaitNull };
            let t = array_trace(s0, SetRequest::NullObject, null, count, object_at, (2 * count + 2) as nat);
            &&& inserted(t) == Seq::new(count as nat, |i: int| (object_at(i as u32), null))
            &&& t.last() is Done
        }),
{
    let s0 = ArrayBuild { array, null: NIL, count: 0, index: 0, phase: ArrayPhase::AwaitNull };
    let fuel = (2 * count + 2) as nat;
    let t = array_trace(s0, SetRequest::NullObject, null, count, object_at, fuel);
    let (s1, r1) = array_step(s0, array_reply(SetRequest::NullObject, null, count, object_at));
    let (s2, r2) = array_step(s1, array_reply(r1, null, count, object_at));
    let t1 = array_trace(s1, r1, null, count, object_at, (fuel - 1) as nat);
    let t2 = array_trace(s2, r2, null, count, object_at, (fuel - 2) as nat);
    assert(t.drop_first() =~= t1);
    assert(t1.drop_first() =~= t2);
    assert(inserted(t) == inserted(t1));
    assert(inserted(t1) == inserted(t2));
    assert(t.last() == t1.last());
    assert(t1.last() == t2.last());
    if count == 0 {
        assert(r2 is Done);
        assert(t2 == seq![r2]);
        assert(inserted(t2.drop_first()) =~= Seq::<(u32, u32)>::empty());
        assert(inserted(t2) =~= Seq::new(count as nat, |i: int| (object_at(i as u32), null)));
    } else {
        lemma_array_objects_from(s2, null, count, object_at);
        assert(inserted(t2) =~= Seq::new(count as nat, |i: int| (object_at(i as u32), null)));
    }
}

/// Whether a request that reads an array reads `array`.
pub open spec fn reads_array(req: SetRequest, array: u32) -> bool {
    match req {
        SetRequest::ArrayCount { array: a } => a == array,
        SetRequest::ArrayObjectAt { array: a, .. } => a == array,
        _ => true,
    }
}

/// Whatever the runtime replies, a step of the array builder keeps the
/// array it reads, and its `count` and `objectAtIndex:` requests go to that
/// array; an insertion's value is the `NSNull` object the runtime gave.
pub proof fn lemma_array_step_reads_its_array(s: ArrayBuild, r: SetReply)
    ensures
        array_step(s, r).0.array == s.array,
        reads_array(array_step(s, r).1, s.array),
        array_step(s, r).1 matches SetRequest::Insert { value, .. } ==> value == s.null,
        s.phase is AwaitNull ==> array_step(s, r).0.null == object_of(r),
        !(s.phase is AwaitNull) ==> array_step(s, r).0.null == s.null,
{
}

proof fn lemma_array_trace_reads(
    s: ArrayBuild,
    req: SetRequest,
    null: u32,
    count: u32,
    object_at: spec_fn(u32) -> u32,
    fuel: nat,
)
    requires
        reads_array(req, s.array),
    ensures
        forall|i: int|
            0 <= i < array_trace(s, req, null, count, object_at, fuel).len() ==> reads_array(
                #[trigger] array_trace(s, req, null, count, object_at, fuel)[i],
                s.array,
            ),
    decreases fuel,
{
    let t = array_trace(s, req, null, count, object_at, fuel);
    if fuel == 0 || req is Done {
        assert(t == seq![req]);
    } else {
        let next = array_step(s, array_reply(req, null, count, object_at));
        lemma_array_step_reads_its_array(s, array_reply(req, null, count, object_at));
        lemma_array_trace_unfold(s, req, null, count, object_at, fuel);
        lemma_array_trace_reads(next.0, next.1, null, count, object_at, (fuel - 1) as nat);
        let rest = array_trace(next.0, next.1, null, count, object_at, (fuel - 1) as nat);
        assert(t == seq![req] + rest);
        assert forall|i: int| 0 <= i < t.len() implies reads_array(#[trigger] t[i], s.array) by {
            if i > 0 {
                assert(t[i] == rest[i - 1]);
            }
        }
    }
}

proof fn lemma_array_trace_unfold(
    s: ArrayBuild,
    req: SetRequest,
    null: u32,
    count: u32,
    object_at: spec_fn(u32) -> u32,
    fuel: nat,
)
    requires
        fuel > 0,
        !(req is Done),
    ensures
        array_trace(s, req, null, count, object_at, fuel) == seq![req] + array_trace(
            array_step(s, array_reply(req, null, count, object_at)).0,
            array_step(s, array_reply(req, null, count, object_at)).1,
            null,
            count,
            object_at,
            (fuel - 1) as nat,
        ),
{
}

/// Every request that the array builder started on `array` makes to read an
/// array, `count` or `objectAtIndex:`, goes to `array`, however the runtime
/// answers and however long it runs.
pub proof fn lemma_array_build_reads_only_its_array(
    array: u32,
    null: u32,
    count: u32,
    object_at: spec_fn(u32) -> u32,
    fuel: nat,
)
    ensures
        ({
            let s0 = ArrayBuild { array, null: NIL, count: 0, index: 0, phase: ArrayPhase::AwaitNull };
            let t = array_trace(s0, SetRequest::NullObject, null, count, object_at, fuel);
            forall|i: int| 0 <= i < t.len() ==> reads_array(#[trigger] t[i], array)
        }),
{
    let s0 = ArrayBuild { array, null: NIL, count: 0, index: 0, phase: ArrayPhase::AwaitNull };
    lemma_array_trace_reads(s0, SetRequest::NullObject, null, count, object_at, fuel);
}

// ---------------------------------------------------------------------------
// -initWithSet: / -initWithSet:copyItems: (the other set may be nil)
// ---------------------------------------------------------------------------

/// Where the set-copying builder stands.
#[derive(Clone, Copy, Debug, PartialEq, Eq)]
pub enum SetPhase {
    AwaitNull,
    AwaitEnumerator,
    AwaitNext,
    AwaitCopy,
    AwaitCopyInsert,
    AwaitRelease,
    AwaitInsert,
    Finished,
}

/// Building a set from the objects that another set enumerates, inserting
/// each object itself or, with `copy_items`, a copy of it.
#[derive(Clone, Copy, Debug)]
pub struct SetBuild {
    pub other: u32,
    pub copy_items: bool,
    pub null: u32,
    pub enumerator: u32,
    pub copy: u32,
    pub phase: SetPhase,
}

/// The reply kind each phase waits for.
pub open spec fn set_accepts(s: SetBuild, r: SetReply) -> bool {
    match s.phase {
        SetPhase::AwaitNull => r is Object,
        SetPhase::AwaitEnumerator => r is Object,
        SetPhase::AwaitNext => r is Object,
        SetPhase::AwaitCopy => r is Object,
        SetPhase::AwaitCopyInsert => r is Ack,
        SetPhase::AwaitRelease => r is Ack,
        SetPhase::AwaitInsert => r is Ack,
        SetPhase::Finished => true,
    }
}

/// One step: `nil` (or a `nil` enumerator) gives the empty set; otherwise
/// each enumerated object up to the first `nil` is inserted with `NSNull`:
/// itself, or with `copy_items` its copy, which is released once inserted
/// so that the dictionary's reference is the only one.
pub open spec fn set_step(s: SetBuild, r: SetReply) -> (SetBuild, SetRequest) {
    match s.phase {
        SetPhase::AwaitNull => (
            SetBuild { null: object_of(r), phase: SetPhase::AwaitEnumerator, ..s },
            SetRequest::ObjectEnumerator { set: s.other },
        ),
        SetPhase::AwaitEnumerator => if object_of(r) == NIL {
            (SetBuild { phase: SetPhase::Finished, ..s }, SetRequest::Done)
        } else {
            (
                SetBuild { enumerator: object_of(r), phase: SetPhase::AwaitNext, ..s },
                SetRequest::NextObject { enumerator: object_of(r) },
            )
        },
        SetPhase::AwaitNext => if object_of(r) == NIL {
            (SetBuild { phase: SetPhase::Finished, ..s }, SetRequest::Done)
        } else if s.copy_items {
            (SetBuild { phase: SetPhase::AwaitCopy, ..s }, SetRequest::Copy { object: object_of(r) })
        } else {
            (
                SetBuild { phase: SetPhase::AwaitInsert, ..s },
                SetRequest::Insert { key: object_of(r), value: s.null },
            )
        },
        SetPhase::AwaitCopy => (
            SetBuild { copy: object_of(r), phase: SetPhase::AwaitCopyInsert, ..s },
            SetRequest::Insert { key: object_of(r), value: s.null },
        ),
        SetPhase::AwaitCopyInsert => (
            SetBuild { phase: SetPhase::AwaitRelease, ..s },
            SetRequest::Release { object: s.copy },
        ),
        SetPhase::AwaitRelease => (
            SetBuild { phase: SetPhase::AwaitNext, ..s },
            SetRequest::NextObject { enumerator: s.enumerator },
        ),
        SetPhase::AwaitInsert => (
            SetBuild { phase: SetPhase::AwaitNext, ..s },
            SetRequest::NextObject { enumerator: s.enumerator },
        ),
        SetPhase::Finished => (s, SetRequest::Done),
    }
}

impl SetBuild {
    /// Starts building from `other`: a `nil` set is finished at once.
    pub fn start(other: u32, copy_items: bool) -> (res: (SetBuild, SetRequest))
        ensures
            res.0 == (SetBuild {
                other,
                copy_items,
                null: NIL,
                enumerator: NIL,
                copy: NIL,
                phase: if other == NIL {
                    SetPhase::Finished
                } else {
                    SetPhase::AwaitNull
                },
            }),
            other == NIL ==> res.1 == SetRequest::Done,
            other != NIL ==> res.1 == SetRequest::NullObject,
    {
        let phase = if other == NIL {
            SetPhase::Finished
        } else {
            SetPhase::AwaitNull
        };
        let req = if other == NIL {
            SetRequest::Done
        } else {
            SetRequest::NullObject
        };
        (SetBuild { other, copy_items, null: NIL, enumerator: NIL, copy: NIL, phase }, req)
    }
}

/// The decision step of building a set from the objects of another set.
pub fn set_from_set(state: &mut SetBuild, reply: SetReply) -> (req: SetRequest)
    requires
        set_accepts(*old(state), reply),
    ensures
        (*final(state), req) == set_step(*old(state), reply),
{
    match state.phase {
        SetPhase::AwaitNull => {
            state.null = reply_object(reply);
            state.phase = SetPhase::AwaitEnumerator;
            SetRequest::ObjectEnumerator { set: state.other }
        },
        SetPhase::AwaitEnumerator => {
            let enumerator = reply_object(reply);
            if enumerator == NIL {
                state.phase = SetPhase::Finished;
                SetRequest::Done
            } else {
                state.enumerator = enumerator;
                state.phase = SetPhase::AwaitNext;
                SetRequest::NextObject { enumerator }
            }
        },
        SetPhase::AwaitNext => {
            let next = reply_object(reply);
            if next == NIL {
                state.phase = SetPhase::Finished;
                SetRequest::Done
            } else if state.copy_items {
                state.phase = SetPhase::AwaitCopy;
                SetRequest::Copy { object: next }
            } else {
                state.phase = SetPhase::AwaitInsert;
                SetRequest::Insert { key: next, value: state.null }
            }
        },
        SetPhase::AwaitCopy => {
            let copy = reply_object(reply);
            state.copy = copy;
            state.phase = SetPhase::AwaitCopyInsert;
            SetRequest::Insert { key: copy, value: state.null }
        },
        SetPhase::AwaitCopyInsert => {
            state.phase = SetPhase::AwaitRelease;
            SetRequest::Release { object: state.copy }
        },
        SetPhase::AwaitRelease => {
            state.phase = SetPhase::AwaitNext;
            SetRequest::NextObject { enumerator: state.enumerator }
        },
        SetPhase::AwaitInsert => {
            state.phase = SetPhase::AwaitNext;
            SetRequest::NextObject { enumerator: state.enumerator }
        },
        SetPhase::Finished => SetRequest::Done,
    }
}

/// The requests the set-copying builder makes from state `s` with `req`
/// pending, driven by a runtime whose `NSNull` is `null`, whose
/// `objectEnumerator` is `enumerator`, whose enumerator yields
/// `items(taken)`, `items(taken + 1)`, … from the `taken`-th `nextObject`
/// on, and whose copy of an object `o` is `copy_of(o)`; insertions and
/// releases are acknowledged. At most `fuel` more steps.
pub open spec fn set_trace(
    s: SetBuild,
    req: SetRequest,
    null: u32,
    enumerator: u32,
    items: spec_fn(nat) -> u32,
    copy_of: spec_fn(u32) -> u32,
    taken: nat,
    fuel: nat,
) -> Seq<SetRequest>
    decreases fuel,
{
    if fuel == 0 || req is Done {
        seq![req]
    } else {
        let reply = match req {
            SetRequest::NullObject => SetReply::Object(null),
            SetRequest::ObjectEnumerator { .. } => SetReply::Object(enumerator),
            SetRequest::NextObject { .. } => SetReply::Object(items(taken)),
            SetRequest::Copy { object } => SetReply::Object(copy_of(object)),
            _ => SetReply::Ack,
        };
        let next_taken = if req is NextObject {
            taken + 1
        } else {
            taken
        };
        let next = set_step(s, reply);
        seq![req] + set_trace(next.0, next.1, null, enumerator, items, copy_of, next_taken, (fuel - 1) as nat)
    }
}

/// The objects released along a run of requests, in order.
pub open spec fn released(trace: Seq<SetRequest>) -> Seq<u32>
    decreases trace.len(),
{
    if trace.len() == 0 {
        Seq::empty()
    } else {
        let rest = released(trace.drop_first());
        match trace[0] {
            SetRequest::Release { object } => seq![object] + rest,
            _ => rest,
        }
    }
}

/// Steps the set-copying builder takes per enumerated object.
pub open spec fn set_steps_per_item(copy_items: bool) -> nat {
    if copy_items {
        4
    } else {
        2
    }
}

/// The key inserted for an enumerated object: its copy, or itself.
pub open spec fn set_inserted_key(copy_items: bool, copy_of: spec_fn(u32) -> u32, o: u32) -> u32 {
    if copy_items {
        copy_of(o)
    } else {
        o
    }
}

proof fn lemma_set_items_from(
    s: SetBuild,
    null: u32,
    enumerator: u32,
    items: spec_fn(nat) -> u32,
    copy_of: spec_fn(u32) -> u32,
    taken: nat,
    n: nat,
)
    requires
        s.phase is AwaitNext,
        s.null == null,
        s.enumerator == enumerator,
        taken <= n,
        forall|k: nat| k < n ==> #[trigger] items(k) != NIL,
        items(n) == NIL,
    ensures
        ({
            let t = set_trace(
                s,
                SetRequest::NextObject { enumerator },
                null,
                enumerator,
                items,
                copy_of,
                taken,
                (set_steps_per_item(s.copy_items) * (n - taken) + 1) as nat,
            );
            &&& inserted(t) == Seq::new(
                (n - taken) as nat,
                |k: int| (set_inserted_key(s.copy_items, copy_of, items((taken + k) as nat)), null),
            )
            &&& released(t) == if s.copy_items {
                Seq::new((n - taken) as nat, |k: int| copy_of(items((taken + k) as nat)))
            } else {
                Seq::empty()
            }
            &&& t.last() is Done
        }),
    decreases n - taken,
{
    let per = set_steps_per_item(s.copy_items);
    let fuel = (per * (n - taken) + 1) as nat;
    let req = SetRequest::NextObject { enumerator };
    let t = set_trace(s, req, null, enumerator, items, copy_of, taken, fuel);
    let (s1, r1) = set_step(s, SetReply::Object(items(taken)));
    let t1 = set_trace(s1, r1, null, enumerator, items, copy_of, taken + 1, (fuel - 1) as nat);
    assert(t.drop_first() =~= t1);
    assert(t.last() == t1.last());
    assert(inserted(t) == inserted(t1));
    assert(released(t) == released(t1));
    if taken == n {
        assert(r1 is Done);
        assert(t1 == seq![r1]);
        assert(inserted(t1.drop_first()) =~= Seq::<(u32, u32)>::empty());
        assert(released(t1.drop_first()) =~= Seq::<u32>::empty());
        assert(inserted(t) =~= Seq::<(u32, u32)>::empty());
        assert(released(t) =~= Seq::<u32>::empty());
    } else {
        let o = items(taken);
        let key = set_inserted_key(s.copy_items, copy_of, o);
        if s.copy_items {
            assert(r1 == SetRequest::Copy { object: o });
            let (s2, r2) = set_step(s1, SetReply::Object(copy_of(o)));
            assert(r2 == SetRequest::Insert { key, value: null });
            let (s3, r3) = set_step(s2, SetReply::Ack);
            assert(r3 == SetRequest::Release { object: key });
            let (s4, r4) = set_step(s3, SetReply::Ack);
            assert(r4 == req);
            let t2 = set_trace(s2, r2, null, enumerator, items, copy_of, taken + 1, (fuel - 2) as nat);
            let t3 = set_trace(s3, r3, null, enumerator, items, copy_of, taken + 1, (fuel - 3) as nat);
            let t4 = set_trace(s4, r4, null, enumerator, items, copy_of, taken + 1, (fuel - 4) as nat);
            assert(t1.drop_first() =~= t2);
            assert(t2.drop_first() =~= t3);
            assert(t3.drop_first() =~= t4);
            assert(t1.last() == t2.last() && t2.last() == t3.last() && t3.last() == t4.last());
            assert((fuel - 4) as nat == (per * (n - (taken + 1)) + 1) as nat) by (nonlinear_arith)
                requires
                    per == 4,
                    fuel == per * (n - taken) + 1,
                    taken < n,
            {}
            lemma_set_items_from(s4, null, enumerator, items, copy_of, taken + 1, n);
            assert(inserted(t1) == inserted(t2));
            assert(inserted(t2) == seq![(key, null)] + inserted(t3));
            assert(inserted(t3) == inserted(t4));
            assert(released(t1) == released(t2));
            assert(released(t2) == released(t3));
            assert(released(t3) == seq![key] + released(t4));
            assert(inserted(t) == seq![(key, null)] + inserted(t4));
            assert(released(t) == seq![key] + released(t4));
            assert(inserted(t) =~= Seq::new(
                (n - taken) as nat,
                |k: int| (set_inserted_key(s.copy_items, copy_of, items((taken + k) as nat)), null),
            ));
            assert(released(t) =~= Seq::new((n - taken) as nat, |k: int| copy_of(items((taken + k) as nat))));
        } else {
            assert(r1 == SetRequest::Insert { key, value: null });
            let (s2, r2) = set_step(s1, SetReply::Ack);
            assert(r2 == req);
            let t2 = set_trace(s2, r2, null, enumerator, items, copy_of, taken + 1, (fuel - 2) as nat);
            assert(t1.drop_first() =~= t2);
            assert(t1.last() == t2.last());
            assert((fuel - 2) as nat == (per * (n - (taken + 1)) + 1) as nat) by (nonlinear_arith)
                requires
                    per == 2,
                    fuel == per * (n - taken) + 1,
                    taken < n,
            {}
            lemma_set_items_from(s2, null, enumerator, items, copy_of, taken + 1, n);
            assert(inserted(t) == seq![(key, null)] + inserted(t2));
            assert(released(t) == released(t2));
            assert(inserted(t) =~= Seq::new(
                (n - taken) as nat,
                |k: int| (set_inserted_key(s.copy_items, copy_of, items((taken + k) as nat)), null),
            ));
        }
    }
}

/// The set-copying builder inserts each object that the other set's
/// enumerator yields before `nil`, in order, with `NSNull` as its value:
/// the object itself, so that it is retained and not copied; or, with
/// `copy_items`, its copy, each copy being released once, right after its
/// insertion. A `nil` enumerator gives no insertion.
pub proof fn lemma_set_inserts_each_object(
    other: u32,
    copy_items: bool,
    null: u32,
    enumerator: u32,
    items: spec_fn(nat) -> u32,
    copy_of: spec_fn(u32) -> u32,
    n: nat,
)
    requires
        other != NIL,
        forall|k: nat| k < n ==> #[trigger] items(k) != NIL,
        items(n) == NIL,
    ensures
        ({
            let s0 = SetBuild {
                other,
                copy_items,
                null: NIL,
                enumerator: NIL,
                copy: NIL,
                phase: SetPhase::AwaitNull,
            };
            let t = set_trace(
                s0,
                SetRequest::NullObject,
                null,
                enumerator,
                items,
                copy_of,
                0,
                (set_steps_per_item(copy_items) * n + 3) as nat,
            );
            &&& enumerator != NIL ==> inserted(t) == Seq::new(
                n,
                |k: int| (set_inserted_key(copy_items, copy_of, items(k as nat)), null),
            )
            &&& enumerator != NIL ==> released(t) == if copy_items {
                Seq::new(n, |k: int| copy_of(items(k as nat)))
            } else {
                Seq::empty()
            }
            &&& enumerator == NIL ==> inserted(t) == Seq::<(u32, u32)>::empty()
            &&& t.last() is Done
        }),
{
    let s0 = SetBuild {
        other,
        copy_items,
        null: NIL,
        enumerator: NIL,
        copy: NIL,
        phase: SetPhase::AwaitNull,
    };
    let per = set_steps_per_item(copy_items);
    let fuel = (per * n + 3) as nat;
    let t = set_trace(s0, SetRequest::NullObject, null, enumerator, items, copy_of, 0, fuel);
    let (s1, r1) = set_step(s0, SetReply::Object(null));
    let (s2, r2) = set_step(s1, SetReply::Object(enumerator));
    let t1 = set_trace(s1, r1, null, enumerator, items, copy_of, 0, (fuel - 1) as nat);
    let t2 = set_trace(s2, r2, null, enumerator, items, copy_of, 0, (fuel - 2) as nat);
    assert(t.drop_first() =~= t1);
    assert(t1.drop_first() =~= t2);
    assert(t.last() == t1.last() && t1.last() == t2.last());
    assert(inserted(t) == inserted(t1));
    assert(inserted(t1) == inserted(t2));
    assert(released(t) == released(t1));
    assert(released(t1) == released(t2));
    if enumerator == NIL {
        assert(r2 is Done);
        assert(t2 == seq![r2]);
        assert(inserted(t2.drop_first()) =~= Seq::<(u32, u32)>::empty());
    } else {
        assert((fuel - 2) as nat == (per * (n - 0) + 1) as nat);
        lemma_set_items_from(s2, null, enumerator, items, copy_of, 0, n);
        assert(inserted(t2) =~= Seq::new(
            n,
            |k: int| (set_inserted_key(copy_items, copy_of, items(k as nat)), null),
        ));
        if copy_items {
            assert(released(t2) =~= Seq::new(n, |k: int| copy_of(items(k as nat))));
        }
    }
}

/// Whether a request to enumerate a set goes to `other`, and a request for
/// the next object to `enumerator`.
pub open spec fn enumerates(req: SetRequest, other: u32, enumerator: u32) -> bool {
    match req {
        SetRequest::ObjectEnumerator { set } => set == other,
        SetRequest::NextObject { enumerator: e } => e == enumerator,
        _ => true,
    }
}

/// Whatever the runtime replies, a step of the set-copying builder keeps the
/// set it copies; its `objectEnumerator` request, made once `NSNull` has
/// come, goes to that set; its `nextObject` requests go to the enumerator
/// the runtime gave, which the builder keeps from then on.
pub proof fn lemma_set_step_enumerates_its_set(s: SetBuild, r: SetReply)
    ensures
        set_step(s, r).0.other == s.other,
        s.phase is AwaitNull ==> set_step(s, r).1 == (SetRequest::ObjectEnumerator { set: s.other }),
        enumerates(
            set_step(s, r).1,
            s.other,
            if s.phase is AwaitEnumerator {
                object_of(r)
            } else {
                s.enumerator
            },
        ),
        s.phase is AwaitEnumerator && object_of(r) != NIL ==> set_step(s, r).0.enumerator
            == object_of(r),
        !(s.phase is AwaitEnumerator) ==> set_step(s, r).0.enumerator == s.enumerator,
{
}

/// The phases in which the builder holds the enumerator.
pub open spec fn holds_enumerator(phase: SetPhase) -> bool {
    phase is AwaitNext || phase is AwaitCopy || phase is AwaitCopyInsert || phase is AwaitRelease
        || phase is AwaitInsert
}

proof fn lemma_set_trace_unfold(
    s: SetBuild,
    req: SetRequest,
    null: u32,
    enumerator: u32,
    items: spec_fn(nat) -> u32,
    copy_of: spec_fn(u32) -> u32,
    taken: nat,
    fuel: nat,
)
    requires
        fuel > 0,
        !(req is Done),
    ensures
        ({
            let reply = match req {
                SetRequest::NullObject => SetReply::Object(null),
                SetRequest::ObjectEnumerator { .. } => SetReply::Object(enumerator),
                SetRequest::NextObject { .. } => SetReply::Object(items(taken)),
                SetRequest::Copy { object } => SetReply::Object(copy_of(object)),
                _ => SetReply::Ack,
            };
            let next_taken = if req is NextObject {
                taken + 1
            } else {
                taken
            };
            let next = set_step(s, reply);
            set_trace(s, req, null, enumerator, items, copy_of, taken, fuel) == seq![req]
                + set_trace(next.0, next.1, null, enumerator, items, copy_of, next_taken, (fuel - 1) as nat)
        }),
{
}

proof fn lemma_set_trace_enumerates(
    s: SetBuild,
    req: SetRequest,
    null: u32,
    enumerator: u32,
    items: spec_fn(nat) -> u32,
    copy_of: spec_fn(u32) -> u32,
    taken: nat,
    fuel: nat,
)
    requires
        enumerates(req, s.other, enumerator),
        holds_enumerator(s.phase) ==> s.enumerator == enumerator,
        s.phase is AwaitNull ==> req is NullObject,
        s.phase is AwaitEnumerator ==> req is ObjectEnumerator,
    ensures
        forall|i: int|
            0 <= i < set_trace(s, req, null, enumerator, items, copy_of, taken, fuel).len()
                ==> enumerates(
                #[trigger] set_trace(s, req, null, enumerator, items, copy_of, taken, fuel)[i],
                s.other,
                enumerator,
            ),
    decreases fuel,
{
    let t = set_trace(s, req, null, enumerator, items, copy_of, taken, fuel);
    if fuel == 0 || req is Done {
        assert(t == seq![req]);
    } else {
        let reply = match req {
            SetRequest::NullObject => SetReply::Object(null),
            SetRequest::ObjectEnumerator { .. } => SetReply::Object(enumerator),
            SetRequest::NextObject { .. } => SetReply::Object(items(taken)),
            SetRequest::Copy { object } => SetReply::Object(copy_of(object)),
            _ => SetReply::Ack,
        };
        let next_taken = if req is NextObject {
            taken + 1
        } else {
            taken
        };
        let next = set_step(s, reply);
        lemma_set_trace_unfold(s, req, null, enumerator, items, copy_of, taken, fuel);
        lemma_set_step_enumerates_its_set(s, reply);
        lemma_set_trace_enumerates(
            next.0,
            next.1,
            null,
            enumerator,
            items,
            copy_of,
            next_taken,
            (fuel - 1) as nat,
        );
        let rest = set_trace(next.0, next.1, null, enumerator, items, copy_of, next_taken, (fuel - 1) as nat);
        assert forall|i: int| 0 <= i < t.len() implies enumerates(#[trigger] t[i], s.other, enumerator) by {
            if i > 0 {
                assert(t[i] == rest[i - 1]);
            }
        }
    }
}

/// The set-copying builder started on `other` asks `other`, and no other
/// object, for its enumerator (its second request, right after `NSNull`),
/// and asks only the enumerator that the runtime gave for the next object,
/// however the runtime answers and however long it runs.
pub proof fn lemma_set_build_enumerates_its_set(
    other: u32,
    copy_items: bool,
    null: u32,
    enumerator: u32,
    items: spec_fn(nat) -> u32,
    copy_of: spec_fn(u32) -> u32,
    fuel: nat,
)
    ensures
        ({
            let s0 = SetBuild {
                other,
                copy_items,
                null: NIL,
                enumerator: NIL,
                copy: NIL,
                phase: SetPhase::AwaitNull,
            };
            let t = set_trace(s0, SetRequest::NullObject, null, enumerator, items, copy_of, 0, fuel);
            &&& forall|i: int| 0 <= i < t.len() ==> enumerates(#[trigger] t[i], other, enumerator)
            &&& fuel >= 1 ==> t[1] == (SetRequest::ObjectEnumerator { set: other })
        }),
{
    let s0 = SetBuild {
        other,
        copy_items,
        null: NIL,
        enumerator: NIL,
        copy: NIL,
        phase: SetPhase::AwaitNull,
    };
    lemma_set_trace_enumerates(s0, SetRequest::NullObject, null, enumerator, items, copy_of, 0, fuel);
    if fuel >= 1 {
        lemma_set_trace_unfold(s0, SetRequest::NullObject, null, enumerator, items, copy_of, 0, fuel);
        let next = set_step(s0, SetReply::Object(null));
        let rest = set_trace(next.0, next.1, null, enumerator, items, copy_of, 0, (fuel - 1) as nat);
        assert(rest[0] == next.1);
    }
}

// ---------------------------------------------------------------------------
// +setWithObjects:count: / -initWithObjects:count: (a C array of pointers)
// ---------------------------------------------------------------------------

/// Size of an object pointer in guest memory.
pub const POINTER_SIZE: u32 = 4;

/// Where the C-array builder stands.
#[derive(Clone, Copy, Debug, PartialEq, Eq)]
pub enum CArrayPhase {
    AwaitNull,
    AwaitObject,
    AwaitInsert,
    Finished,
}

/// Building a set from `count` object pointers stored from guest address
/// `objects` on.
#[derive(Clone, Copy, Debug)]
pub struct CArrayBuild {
    pub objects: u32,
    pub count: u32,
    pub null: u32,
    pub index: u32,
    pub phase: CArrayPhase,
}

/// The address of element `i` of the C array.
pub open spec fn element_address(objects: u32, i: int) -> int {
    objects + POINTER_SIZE * i
}

/// The state's own consistency: every element lies within the address
/// space, and the index is within the count while elements are read.
pub open spec fn c_array_wf(s: CArrayBuild) -> bool {
    &&& (s.count == 0 || element_address(s.objects, s.count - 1) <= u32::MAX)
    &&& ((s.phase is AwaitObject || s.phase is AwaitInsert) ==> s.index < s.count)
}

/// The reply kind each phase waits for.
pub open spec fn c_array_accepts(s: CArrayBuild, r: SetReply) -> bool {
    match s.phase {
        CArrayPhase::AwaitNull => r is Object,
        CArrayPhase::AwaitObject => r is Object,
        CArrayPhase::AwaitInsert => r is Ack,
        CArrayPhase::Finished => true,
    }
}

/// One step: the pointers at indices `0 .. count` are read and inserted in
/// order, each with `NSNull`.
pub open spec fn c_array_step(s: CArrayBuild, r: SetReply) -> (CArrayBuild, SetRequest) {
    match s.phase {
        CArrayPhase::AwaitNull => if s.count == 0 {
            (CArrayBuild { null: object_of(r), phase: CArrayPhase::Finished, ..s }, SetRequest::Done)
        } else {
            (
                CArrayBuild { null: object_of(r), index: 0, phase: CArrayPhase::AwaitObject, ..s },
                SetRequest::ReadObjectPointer { address: s.objects },
            )
        },
        CArrayPhase::AwaitObject => (
            CArrayBuild { phase: CArrayPhase::AwaitInsert, ..s },
            SetRequest::Insert { key: object_of(r), value: s.null },
        ),
        CArrayPhase::AwaitInsert => if s.index + 1 == s.count {
            (CArrayBuild { phase: CArrayPhase::Finished, ..s }, SetRequest::Done)
        } else {
            (
                CArrayBuild { index: (s.index + 1) as u32, phase: CArrayPhase::AwaitObject, ..s },
                SetRequest::ReadObjectPointer {
                    address: element_address(s.objects, s.index + 1) as u32,
                },
            )
        },
        CArrayPhase::Finished => (s, SetRequest::Done),
    }
}

impl CArrayBuild {
    /// Starts building from the C array: the first request fetches `NSNull`.
    pub fn start(objects: u32, count: u32) -> (res: (CArrayBuild, SetRequest))
        requires
            count == 0 || element_address(objects, count - 1) <= u32::MAX,
        ensures
            res.0 == (CArrayBuild { objects, count, null: NIL, index: 0, phase: CArrayPhase::AwaitNull }),
            c_array_wf(res.0),
            res.1 == SetRequest::NullObject,
    {
        (CArrayBuild { objects, count, null: NIL, index: 0, phase: CArrayPhase::AwaitNull }, SetRequest::NullObject)
    }
}

/// The decision step of building a set from a C array of object pointers.
pub fn set_from_c_array(state: &mut CArrayBuild, reply: SetReply) -> (req: SetRequest)
    requires
        c_array_wf(*old(state)),
        c_array_accepts(*old(state), reply),
    ensures
        (*final(state), req) == c_array_step(*old(state), reply),
        c_array_wf(*final(state)),
{
    match state.phase {
        CArrayPhase::AwaitNull => {
            state.null = reply_object(reply);
            if state.count == 0 {
                state.phase = CArrayPhase::Finished;
                SetRequest::Done
            } else {
                state.index = 0;
                state.phase = CArrayPhase::AwaitObject;
                SetRequest::ReadObjectPointer { address: state.objects }
            }
        },
        CArrayPhase::AwaitObject => {
            state.phase = CArrayPhase::AwaitInsert;
            SetRequest::Insert { key: reply_object(reply), value: state.null }
        },
        CArrayPhase::AwaitInsert => {
            if state.index + 1 == state.count {
                state.phase = CArrayPhase::Finished;
                SetRequest::Done
            } else {
                state.index = state.index + 1;
                state.phase = CArrayPhase::AwaitObject;
                SetRequest::ReadObjectPointer { address: state.objects + POINTER_SIZE * state.index }
            }
        },
        CArrayPhase::Finished => SetRequest::Done,
    }
}

/// A runtime answering the C-array builder: `NSNull` is `null`, the
/// pointer stored at address `a` is `pointer_at(a)`, and every insertion is
/// acknowledged.
pub open spec fn c_array_reply(req: SetRequest, null: u32, pointer_at: spec_fn(u32) -> u32) -> SetReply {
    match req {
        SetRequest::NullObject => SetReply::Object(null),
        SetRequest::ReadObjectPointer { address } => SetReply::Object(pointer_at(address)),
        _ => SetReply::Ack,
    }
}

/// The requests the C-array builder makes from state `s` with `req`
/// pending, driven by that runtime, for at most `fuel` more steps.
pub open spec fn c_array_trace(
    s: CArrayBuild,
    req: SetRequest,
    null: u32,
    pointer_at: spec_fn(u32) -> u32,
    fuel: nat,
) -> Seq<SetRequest>
    decreases fuel,
{
    if fuel == 0 || req is Done {
        seq![req]
    } else {
        let next = c_array_step(s, c_array_reply(req, null, pointer_at));
        seq![req] + c_array_trace(next.0, next.1, null, pointer_at, (fuel - 1) as nat)
    }
}

proof fn lemma_c_array_elements_from(s: CArrayBuild, null: u32, pointer_at: spec_fn(u32) -> u32)
    requires
        c_array_wf(s),
        s.phase is AwaitObject,
        s.null == null,
    ensures
        ({
            let t = c_array_trace(
                s,
                SetRequest::ReadObjectPointer {
                    address: element_address(s.objects, s.index as int) as u32,
                },
                null,
                pointer_at,
                (2 * (s.count - s.index)) as nat,
            );
            &&& inserted(t) == Seq::new(
                (s.count - s.index) as nat,
                |k: int| (pointer_at(element_address(s.objects, s.index + k) as u32), null),
            )
            &&& t.last() is Done
        }),
    decreases s.count - s.index,
{
    let req = SetRequest::ReadObjectPointer {
        address: element_address(s.objects, s.index as int) as u32,
    };
    let fuel = (2 * (s.count - s.index)) as nat;
    let o = pointer_at(element_address(s.objects, s.index as int) as u32);
    let (s1, r1) = c_array_step(s, c_array_reply(req, null, pointer_at));
    assert(r1 == SetRequest::Insert { key: o, value: null });
    let (s2, r2) = c_array_step(s1, c_array_reply(r1, null, pointer_at));
    let t = c_array_trace(s, req, null, pointer_at, fuel);
    let t1 = c_array_trace(s1, r1, null, pointer_at, (fuel - 1) as nat);
    let t2 = c_array_trace(s2, r2, null, pointer_at, (fuel - 2) as nat);
    assert(t.drop_first() =~= t1);
    assert(t1.drop_first() =~= t2);
    assert(t.last() == t1.last());
    assert(t1.last() == t2.last());
    let expected = Seq::new(
        (s.count - s.index) as nat,
        |k: int| (pointer_at(element_address(s.objects, s.index + k) as u32), null),
    );
    if s.index + 1 == s.count {
        assert(r2 is Done);
        assert(t2 == seq![r2]);
        assert(inserted(t2.drop_first()) =~= Seq::<(u32, u32)>::empty());
        assert(inserted(t2) =~= Seq::<(u32, u32)>::empty());
        assert(inserted(t1) =~= seq![(o, null)]);
        assert(inserted(t) =~= expected);
    } else {
        lemma_c_array_elements_from(s2, null, pointer_at);
        let rest = Seq::new(
            (s2.count - s2.index) as nat,
            |k: int| (pointer_at(element_address(s2.objects, s2.index + k) as u32), null),
        );
        assert(inserted(t2) == rest);
        assert(inserted(t1) == seq![(o, null)] + rest);
        assert(inserted(t) == inserted(t1));
        assert(inserted(t) =~= expected);
    }
}

/// The C-array builder reads the `count` pointers at `objects`,
/// `objects + 4`, … in order and inserts each object read, with `NSNull` as
/// its value, and then finishes.
pub proof fn lemma_c_array_inserts_each_element(
    objects: u32,
    count: u32,
    null: u32,
    pointer_at: spec_fn(u32) -> u32,
)
    requires
        count == 0 || element_address(objects, count - 1) <= u32::MAX,
    ensures
        ({
            let s0 = CArrayBuild { objects, count, null: NIL, index: 0, phase: CArrayPhase::AwaitNull };
            let t = c_array_trace(s0, SetRequest::NullObject, null, pointer_at, (2 * count + 1) as nat);
            &&& inserted(t) == Seq::new(
                count as nat,
                |i: int| (pointer_at(element_address(objects, i) as u32), null),
            )
            &&& t.last() is Done
        }),
{
    let s0 = CArrayBuild { objects, count, null: NIL, index: 0, phase: CArrayPhase::AwaitNull };
    let fuel = (2 * count + 1) as nat;
    let t = c_array_trace(s0, SetRequest::NullObject, null, pointer_at, fuel);
    let (s1, r1) = c_array_step(s0, c_array_reply(SetRequest::NullObject, null, pointer_at));
    let t1 = c_array_trace(s1, r1, null, pointer_at, (fuel - 1) as nat);
    assert(t.drop_first() =~= t1);
    assert(inserted(t) == inserted(t1));
    assert(t.last() == t1.last());
    if count == 0 {
        assert(r1 is Done);
        assert(t1 == seq![r1]);
        assert(inserted(t1.drop_first()) =~= Seq::<(u32, u32)>::empty());
        assert(inserted(t1) =~= Seq::new(
            count as nat,
            |i: int| (pointer_at(element_address(objects, i) as u32), null),
        ));
    } else {
        assert(element_address(objects, 0) as u32 == objects);
        lemma_c_array_elements_from(s1, null, pointer_at);
        assert(inserted(t1) =~= Seq::new(
            count as nat,
            |i: int| (pointer_at(element_address(objects, i) as u32), null),
        ));
    }
}

/// The C-array builder reads the 32-bit object pointers one after the
/// other, 4 bytes apart from `objects` on, and inserts what it reads, in
/// order, each with `NSNull` as its value.
pub proof fn lemma_c_array_reads_consecutive_pointers(
    objects: u32,
    count: u32,
    null: u32,
    pointer_at: spec_fn(u32) -> u32,
)
    requires
        count == 0 || objects + 4 * (count - 1) <= u32::MAX,
    ensures
        ({
            let s0 = CArrayBuild { objects, count, null: NIL, index: 0, phase: CArrayPhase::AwaitNull };
            let t = c_array_trace(s0, SetRequest::NullObject, null, pointer_at, (2 * count + 1) as nat);
            inserted(t) == Seq::new(count as nat, |i: int| (pointer_at((objects + 4 * i) as u32), null))
        }),
{
    lemma_c_array_inserts_each_element(objects, count, null, pointer_at);
    let s0 = CArrayBuild { objects, count, null: NIL, index: 0, phase: CArrayPhase::AwaitNull };
    let t = c_array_trace(s0, SetRequest::NullObject, null, pointer_at, (2 * count + 1) as nat);
    assert(inserted(t) =~= Seq::new(count as nat, |i: int| (pointer_at((objects + 4 * i) as u32), null)));
}

/// An array and a C array that hold the same objects build the same
/// dictionary: the same keys, inserted in the same order, each with
/// `NSNull`.
pub proof fn lemma_array_and_c_array_agree(
    array: u32,
    objects: u32,
    count: u32,
    null: u32,
    object_at: spec_fn(u32) -> u32,
    pointer_at: spec_fn(u32) -> u32,
)
    requires
        array != NIL,
        count == 0 || element_address(objects, count - 1) <= u32::MAX,
        forall|i: u32| i < count ==> #[trigger] object_at(i) == pointer_at(
            element_address(objects, i as int) as u32,
        ),
    ensures
        inserted(
            array_trace(
                ArrayBuild { array, null: NIL, count: 0, index: 0, phase: ArrayPhase::AwaitNull },
                SetRequest::NullObject,
                null,
                count,
                object_at,
                (2 * count + 2) as nat,
            ),
        ) == inserted(
            c_array_trace(
                CArrayBuild { objects, count, null: NIL, index: 0, phase: CArrayPhase::AwaitNull },
                SetRequest::NullObject,
                null,
                pointer_at,
                (2 * count + 1) as nat,
            ),
        ),
{
    lemma_array_inserts_each_object(array, null, count, object_at);
    lemma_c_array_inserts_each_element(objects, count, null, pointer_at);
    let a = Seq::new(count as nat, |i: int| (object_at(i as u32), null));
    let c = Seq::new(count as nat, |i: int| (pointer_at(element_address(objects, i) as u32), null));
    assert forall|i: int| 0 <= i < count implies a[i] == c[i] by {
        assert(object_at(i as u32) == pointer_at(element_address(objects, (i as u32) as int) as u32));
    }
    assert(a =~= c);
}

// ---------------------------------------------------------------------------
// -member:
// ---------------------------------------------------------------------------

/// What the membership search asks or answers.
#[derive(Clone, Copy, Debug, PartialEq, Eq)]
pub enum MemberRequest {
    /// `[key isEqual:object]`; reply: the answer.
    IsEqual { key: u32, object: u32 },
    /// The search is over: the stored object found, or `nil`.
    Found(u32),
}

/// Searching a set's keys, in the order the set enumerates them, for one
/// equal to `object`.
pub struct MemberSearch {
    pub keys: Vec<u32>,
    pub object: u32,
    pub next: usize,
}

/// The request for the key at `i`: past the end the answer is `nil`; a key
/// that is the object itself is the answer; any other key is asked.
pub open spec fn member_request_at(keys: Seq<u32>, object: u32, i: int) -> MemberRequest {
    if i >= keys.len() {
        MemberRequest::Found(NIL)
    } else if keys[i] == object {
        MemberRequest::Found(keys[i])
    } else {
        MemberRequest::IsEqual { key: keys[i], object }
    }
}

/// The state's own consistency.
pub open spec fn member_wf(s: MemberSearch) -> bool {
    s.next <= s.keys@.len()
}

/// The request for the key that `search` is at.
fn member_request(search: &MemberSearch) -> (req: MemberRequest)
    requires
        member_wf(*search),
    ensures
        req == member_request_at(search.keys@, search.object, search.next as int),
{
    if search.next >= search.keys.len() {
        MemberRequest::Found(NIL)
    } else {
        let key = search.keys[search.next];
        if key == search.object {
            MemberRequest::Found(key)
        } else {
            MemberRequest::IsEqual { key, object: search.object }
        }
    }
}

impl MemberSearch {
    /// Starts the search for `object` among `keys`: `nil` is never a member.
    pub fn start(keys: Vec<u32>, object: u32) -> (res: (MemberSearch, MemberRequest))
        ensures
            res.0.keys@ == keys@,
            res.0.object == object,
            res.0.next == 0,
            member_wf(res.0),
            object == NIL ==> res.1 == MemberRequest::Found(NIL),
            object != NIL ==> res.1 == member_request_at(keys@, object, 0),
    {
        let search = MemberSearch { keys, object, next: 0 };
        if object == NIL {
            (search, MemberRequest::Found(NIL))
        } else {
            let req = member_request(&search);
            (search, req)
        }
    }
}

/// The decision step of `-member:`: `is_equal` answers the pending
/// `isEqual:` about the key at `next`. Yes makes that key the result; no
/// moves on to the following key.
pub fn set_member(search: &mut MemberSearch, is_equal: bool) -> (req: MemberRequest)
    requires
        old(search).next < old(search).keys@.len(),
    ensures
        final(search).keys@ == old(search).keys@,
        final(search).object == old(search).object,
        member_wf(*final(search)),
        is_equal ==> final(search).next == old(search).next && req == MemberRequest::Found(
            old(search).keys@[old(search).next as int],
        ),
        !is_equal ==> final(search).next == old(search).next + 1 && req == member_request_at(
            old(search).keys@,
            old(search).object,
            old(search).next + 1,
        ),
{
    if is_equal {
        MemberRequest::Found(search.keys[search.next])
    } else {
        let _len = search.keys.len();
        search.next = search.next + 1;
        member_request(search)
    }
}

/// The stored object that `-member:` is documented to return when the
/// runtime's `-isEqual:` holds of exactly the keys `is_equal` holds of: the
/// first key, from `i` on, that is the object itself or equal to it; `nil`
/// if there is none.
pub open spec fn first_member(keys: Seq<u32>, object: u32, is_equal: spec_fn(u32) -> bool, i: int) -> u32
    decreases keys.len() - i,
{
    if i >= keys.len() || i < 0 {
        NIL
    } else if keys[i] == object || is_equal(keys[i]) {
        keys[i]
    } else {
        first_member(keys, object, is_equal, i + 1)
    }
}

/// Where the search ends, from the request for the key at `i` on, when each
/// `isEqual:` about a key `k` is answered `is_equal(k)`.
pub open spec fn member_outcome(keys: Seq<u32>, object: u32, is_equal: spec_fn(u32) -> bool, i: int) -> u32
    decreases keys.len() - i,
{
    if i < 0 {
        NIL
    } else {
        match member_request_at(keys, object, i) {
            MemberRequest::Found(k) => k,
            MemberRequest::IsEqual { key, object: _ } => if is_equal(key) {
                key
            } else {
                member_outcome(keys, object, is_equal, i + 1)
            },
        }
    }
}

/// `-member:` answers as Apple documents it: for an object other than
/// `nil`, the search that `MemberSearch::start` begins and `set_member`
/// drives ends with the first stored key that is the object itself or
/// `-isEqual:` to it, or with `nil` when there is none.
pub proof fn lemma_member_finds_first_equal(keys: Seq<u32>, object: u32, is_equal: spec_fn(u32) -> bool)
    ensures
        member_outcome(keys, object, is_equal, 0) == first_member(keys, object, is_equal, 0),
{
    lemma_member_outcome_from(keys, object, is_equal, 0);
}

proof fn lemma_member_outcome_from(keys: Seq<u32>, object: u32, is_equal: spec_fn(u32) -> bool, i: int)
    requires
        0 <= i,
    ensures
        member_outcome(keys, object, is_equal, i) == first_member(keys, object, is_equal, i),
    decreases keys.len() - i,
{
    if i < keys.len() {
        lemma_member_outcome_from(keys, object, is_equal, i + 1);
    }
}

/// A found member is one of the stored keys, or `nil`.
pub proof fn lemma_member_is_stored_key(keys: Seq<u32>, object: u32, is_equal: spec_fn(u32) -> bool, i: int)
    requires
        0 <= i,
    ensures
        first_member(keys, object, is_equal, i) == NIL || keys.contains(first_member(keys, object, is_equal, i)),
    decreases keys.len() - i,
{
    if i < keys.len() {
        if !(keys[i] == object || is_equal(keys[i])) {
            lemma_member_is_stored_key(keys, object, is_equal, i + 1);
        }
    }
}

} // verus!
