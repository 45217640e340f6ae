use self_type_binder::handle_table::{HandleError, HandleTable};
use self_type_binder::templates::OwnershipPolicy;

#[test]
fn out_then_in_under_every_policy() {
    for policy in [OwnershipPolicy::Unique, OwnershipPolicy::CopyValue, OwnershipPolicy::SharedCount] {
        let mut t = HandleTable::new(policy);
        let h = t.box_object(vec![7, -3, 11]);
        assert_eq!(t.take(h), Ok(vec![7, -3, 11]));
    }
}

#[test]
fn unique_point_moves_out_once() {
    let mut t = HandleTable::new(OwnershipPolicy::Unique);
    let h = t.box_object(vec![1, 2]);
    assert!(t.is_live(h));
    assert_eq!(t.take(h), Ok(vec![1, 2]));
    assert!(!t.is_live(h));
    assert_eq!(t.take(h), Err(HandleError::Released));
    // the foreign side zeroed its field
    assert_eq!(t.take(0), Err(HandleError::Null));
}

#[test]
fn copy_value_vec3_comes_out_twice() {
    let mut t = HandleTable::new(OwnershipPolicy::CopyValue);
    let h = t.box_object(vec![1, 2, 3]);
    let a = t.take(h);
    let b = t.take(h);
    assert_eq!(a, Ok(vec![1, 2, 3]));
    assert_eq!(a, b);
    assert!(t.is_live(h));
}

#[test]
fn shared_buffer_counts_owners() {
    let mut t = HandleTable::new(OwnershipPolicy::SharedCount);
    let h = t.box_object(vec![42]);
    assert_eq!(t.owners(h), Some(1));
    assert_eq!(t.take(h), Ok(vec![42]));
    assert_eq!(t.owners(h), Some(2));
    assert_eq!(t.take(h), Ok(vec![42]));
    assert_eq!(t.owners(h), Some(3));
    assert!(t.is_live(h));
    assert_eq!(t.release(h), Ok(()));
    assert_eq!(t.owners(h), Some(2));
    assert!(!t.is_live(h));
}

#[test]
fn handles_are_never_reused() {
    let mut t = HandleTable::new(OwnershipPolicy::Unique);
    let a = t.box_object(vec![1]);
    assert_eq!(t.release(a), Ok(()));
    let b = t.box_object(vec![2]);
    assert_ne!(a, b);
    assert_eq!(a, 1);
    assert_eq!(b, 2);
    assert_eq!(t.take(a), Err(HandleError::Released));
    assert_eq!(t.release(a), Err(HandleError::Released));
    assert_eq!(t.take(9), Err(HandleError::Unknown));
    assert_eq!(t.owners(9), None);
    assert_eq!(t.release(0), Err(HandleError::Null));
}

#[test]
fn empty_value_round_trips() {
    let mut t = HandleTable::new(OwnershipPolicy::CopyValue);
    let h = t.box_object(vec![]);
    assert_eq!(t.take(h), Ok(vec![]));
}
