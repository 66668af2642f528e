use touchhle::ns_set::{
    set_from_array, set_from_c_array, set_from_objects, set_from_set, set_member, ArrayBuild,
    CArrayBuild, MemberRequest, MemberSearch, ObjectsBuild, SetBuild, SetReply, SetRequest, NIL,
};

const NULL_OBJECT: u32 = 0x9000;

/// Runs a builder against a scripted runtime: `answer` gives the reply to
/// each request; the requests made are returned.
fn drive<S>(
    mut state: S,
    first: SetRequest,
    step: fn(&mut S, SetReply) -> SetRequest,
    mut answer: impl FnMut(&SetRequest) -> SetReply,
) -> Vec<SetRequest> {
    let mut trace = vec![first];
    let mut req = first;
    while req != SetRequest::Done {
        let reply = answer(&req);
        req = step(&mut state, reply);
        trace.push(req);
        assert!(trace.len() < 1000);
    }
    trace
}

fn inserted(trace: &[SetRequest]) -> Vec<(u32, u32)> {
    trace
        .iter()
        .filter_map(|r| match r {
            SetRequest::Insert { key, value } => Some((*key, *value)),
            _ => None,
        })
        .collect()
}

#[test]
fn objects_until_nil() {
    let mut args = vec![0x20, 0x30, NIL, 0x40].into_iter();
    let (state, first) = ObjectsBuild::start(0x10);
    let trace = drive(state, first, set_from_objects, |req| match req {
        SetRequest::NullObject => SetReply::Object(NULL_OBJECT),
        SetRequest::NextVararg => SetReply::Object(args.next().unwrap()),
        _ => SetReply::Ack,
    });
    assert_eq!(
        inserted(&trace),
        vec![(0x10, NULL_OBJECT), (0x20, NULL_OBJECT), (0x30, NULL_OBJECT)]
    );
    assert_eq!(trace[0], SetRequest::NullObject);
    assert_eq!(trace[1], SetRequest::Insert { key: 0x10, value: NULL_OBJECT });
    assert_eq!(trace[2], SetRequest::NextVararg);
}

#[test]
fn objects_first_object_inserted_even_when_nil() {
    let (state, first) = ObjectsBuild::start(NIL);
    let trace = drive(state, first, set_from_objects, |req| match req {
        SetRequest::NullObject => SetReply::Object(NULL_OBJECT),
        SetRequest::NextVararg => SetReply::Object(NIL),
        _ => SetReply::Ack,
    });
    assert_eq!(inserted(&trace), vec![(NIL, NULL_OBJECT)]);
}

#[test]
fn array_inserts_in_index_order() {
    let (state, first) = ArrayBuild::start(0x500);
    let trace = drive(state, first, set_from_array, |req| match req {
        SetRequest::NullObject => SetReply::Object(NULL_OBJECT),
        SetRequest::ArrayCount { array } => {
            assert_eq!(*array, 0x500);
            SetReply::Count(3)
        },
        SetRequest::ArrayObjectAt { index, .. } => SetReply::Object(0x100 + *index),
        _ => SetReply::Ack,
    });
    assert_eq!(
        inserted(&trace),
        vec![(0x100, NULL_OBJECT), (0x101, NULL_OBJECT), (0x102, NULL_OBJECT)]
    );
}

#[test]
fn array_nil_and_empty() {
    let (_, first) = ArrayBuild::start(NIL);
    assert_eq!(first, SetRequest::Done);
    let (state, first) = ArrayBuild::start(0x500);
    let trace = drive(state, first, set_from_array, |req| match req {
        SetRequest::NullObject => SetReply::Object(NULL_OBJECT),
        SetRequest::ArrayCount { .. } => SetReply::Count(0),
        _ => SetReply::Ack,
    });
    assert_eq!(
        trace,
        vec![SetRequest::NullObject, SetRequest::ArrayCount { array: 0x500 }, SetRequest::Done]
    );
}

fn run_set_build(other: u32, copy_items: bool, enumerator: u32, objects: Vec<u32>) -> Vec<SetRequest> {
    let mut items = objects.into_iter();
    let (state, first) = SetBuild::start(other, copy_items);
    drive(state, first, set_from_set, move |req| match req {
        SetRequest::NullObject => SetReply::Object(NULL_OBJECT),
        SetRequest::ObjectEnumerator { .. } => SetReply::Object(enumerator),
        SetRequest::NextObject { .. } => SetReply::Object(items.next().unwrap_or(NIL)),
        SetRequest::Copy { object } => SetReply::Object(*object + 1),
        _ => SetReply::Ack,
    })
}

#[test]
fn set_without_copies_inserts_objects() {
    let trace = run_set_build(0x700, false, 0x800, vec![0x10, 0x20]);
    assert_eq!(inserted(&trace), vec![(0x10, NULL_OBJECT), (0x20, NULL_OBJECT)]);
    assert!(!trace.iter().any(|r| matches!(r, SetRequest::Copy { .. } | SetRequest::Release { .. })));
}

#[test]
fn set_with_copies_inserts_and_releases_copies() {
    let trace = run_set_build(0x700, true, 0x800, vec![0x10, 0x20]);
    assert_eq!(inserted(&trace), vec![(0x11, NULL_OBJECT), (0x21, NULL_OBJECT)]);
    let tail: Vec<SetRequest> = trace[3..8].to_vec();
    assert_eq!(
        tail,
        vec![
            SetRequest::Copy { object: 0x10 },
            SetRequest::Insert { key: 0x11, value: NULL_OBJECT },
            SetRequest::Release { object: 0x11 },
            SetRequest::NextObject { enumerator: 0x800 },
            SetRequest::Copy { object: 0x20 },
        ]
    );
}

#[test]
fn set_nil_or_nil_enumerator_is_empty() {
    assert_eq!(run_set_build(NIL, false, 0x800, vec![0x10]), vec![SetRequest::Done]);
    let trace = run_set_build(0x700, false, NIL, vec![0x10]);
    assert_eq!(inserted(&trace), vec![]);
    assert_eq!(trace.last(), Some(&SetRequest::Done));
}

#[test]
fn c_array_reads_each_pointer() {
    let (state, first) = CArrayBuild::start(0x1000, 3);
    let trace = drive(state, first, set_from_c_array, |req| match req {
        SetRequest::NullObject => SetReply::Object(NULL_OBJECT),
        SetRequest::ReadObjectPointer { address } => SetReply::Object(*address + 1),
        _ => SetReply::Ack,
    });
    assert_eq!(
        inserted(&trace),
        vec![(0x1001, NULL_OBJECT), (0x1005, NULL_OBJECT), (0x1009, NULL_OBJECT)]
    );
    let (state, first) = CArrayBuild::start(0x1000, 0);
    let trace = drive(state, first, set_from_c_array, |_| SetReply::Object(NULL_OBJECT));
    assert_eq!(trace, vec![SetRequest::NullObject, SetRequest::Done]);
}

fn member(keys: Vec<u32>, object: u32, equal: impl Fn(u32) -> bool) -> (u32, Vec<u32>) {
    let (mut search, mut req) = MemberSearch::start(keys, object);
    let mut asked = Vec::new();
    loop {
        match req {
            MemberRequest::Found(k) => return (k, asked),
            MemberRequest::IsEqual { key, object: o } => {
                assert_eq!(o, object);
                asked.push(key);
                req = set_member(&mut search, equal(key));
            },
        }
    }
}

#[test]
fn member_by_identity_and_is_equal() {
    // Identity needs no message.
    assert_eq!(member(vec![0x10, 0x20, 0x30], 0x20, |_| false), (0x20, vec![0x10]));
    // -isEqual: finds an equal stored object, which is what is returned.
    assert_eq!(member(vec![0x10, 0x20, 0x30], 0x99, |k| k == 0x30), (0x30, vec![0x10, 0x20, 0x30]));
    // None equal.
    assert_eq!(member(vec![0x10, 0x20], 0x99, |_| false), (NIL, vec![0x10, 0x20]));
    // nil is never a member and nothing is asked.
    assert_eq!(member(vec![0x10, NIL], NIL, |_| true), (NIL, vec![]));
    // Empty set.
    assert_eq!(member(vec![], 0x10, |_| true), (NIL, vec![]));
}

#[test]
fn array_and_c_array_build_alike() {
    let objects = [0x31u32, 0x32, 0x33];
    let (state, first) = ArrayBuild::start(0x500);
    let from_array = drive(state, first, set_from_array, |req| match req {
        SetRequest::NullObject => SetReply::Object(NULL_OBJECT),
        SetRequest::ArrayCount { .. } => SetReply::Count(3),
        SetRequest::ArrayObjectAt { index, .. } => SetReply::Object(objects[*index as usize]),
        _ => SetReply::Ack,
    });
    let (state, first) = CArrayBuild::start(0x2000, 3);
    let from_c_array = drive(state, first, set_from_c_array, |req| match req {
        SetRequest::NullObject => SetReply::Object(NULL_OBJECT),
        SetRequest::ReadObjectPointer { address } => {
            SetReply::Object(objects[((*address - 0x2000) / 4) as usize])
        },
        _ => SetReply::Ack,
    });
    assert_eq!(inserted(&from_array), inserted(&from_c_array));
}
