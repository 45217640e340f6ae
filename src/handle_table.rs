use vstd::prelude::*;

use crate::templates::OwnershipPolicy;

verus! {

/// One boxed object: its field contents, whether its box is still alive,
/// and how many owners share it.
pub struct Slot {
    pub fields: Vec<i64>,
    pub live: bool,
    pub owners: u64,
}

pub type SlotModel = (Seq<i64>, bool, nat);

impl View for Slot {
    type V = SlotModel;

    open spec fn view(&self) -> SlotModel {
        (self.fields@, self.live, self.owners as nat)
    }
}

/// Why a handle could not be turned back into a value.
#[derive(PartialEq, Eq, Structural, Clone, Copy, Debug)]
pub enum HandleError {
    /// The handle is zero: the foreign side cleared it.
    Null,
    /// No object was ever boxed under this handle.
    Unknown,
    /// The object's box was consumed or released.
    Released,
    /// The owner count would exceed its range.
    OwnerOverflow,
}

/// The objects that OUT conversions of one class have boxed, each under the
/// handle `position + 1`; handles are never reused, so a stale handle is
/// recognised instead of reaching freed storage.
pub struct HandleTable {
    pub policy: OwnershipPolicy,
    pub slots: Vec<Slot>,
}

pub struct TableModel {
    pub policy: OwnershipPolicy,
    pub slots: Seq<SlotModel>,
}

impl View for HandleTable {
    type V = TableModel;

    open spec fn view(&self) -> TableModel {
        TableModel { policy: self.policy, slots: self.slots@.map_values(|s: Slot| s@) }
    }
}

/// OUT: the table after boxing `fields`, and the handle issued.
pub open spec fn box_spec(m: TableModel, fields: Seq<i64>) -> (TableModel, u64) {
    (TableModel { policy: m.policy, slots: m.slots.push((fields, true, 1)) }, (m.slots.len() + 1) as u64)
}

/// IN: the table after consuming handle `h` as the policy prescribes, and
/// the value obtained.
pub open spec fn take_spec(m: TableModel, h: u64) -> (TableModel, Result<Seq<i64>, HandleError>) {
    if h == 0 {
        (m, Err(HandleError::Null))
    } else if h > m.slots.len() {
        (m, Err(HandleError::Unknown))
    } else {
        let s = m.slots[h - 1];
        if !s.1 {
            (m, Err(HandleError::Released))
        } else {
            match m.policy {
                OwnershipPolicy::Unique => (
                    TableModel { policy: m.policy, slots: m.slots.update(h - 1, (Seq::empty(), false, 0)) },
                    Ok(s.0),
                ),
                OwnershipPolicy::CopyValue => (m, Ok(s.0)),
                OwnershipPolicy::SharedCount => if s.2 >= u64::MAX {
                    (m, Err(HandleError::OwnerOverflow))
                } else {
                    (
                        TableModel { policy: m.policy, slots: m.slots.update(h - 1, (s.0, true, s.2 + 1)) },
                        Ok(s.0),
                    )
                },
            }
        }
    }
}

/// The foreign side gives up handle `h`: the box is freed, and under
/// `SharedCount` its own share is dropped.
pub open spec fn release_spec(m: TableModel, h: u64) -> (TableModel, Result<(), HandleError>) {
    if h == 0 {
        (m, Err(HandleError::Null))
    } else if h > m.slots.len() {
        (m, Err(HandleError::Unknown))
    } else {
        let s = m.slots[h - 1];
        if !s.1 {
            (m, Err(HandleError::Released))
        } else if m.policy == OwnershipPolicy::SharedCount {
            (
                TableModel {
                    policy: m.policy,
                    slots: m.slots.update(h - 1, (s.0, false, if s.2 > 0 { (s.2 - 1) as nat } else { 0 })),
                },
                Ok(()),
            )
        } else {
            (TableModel { policy: m.policy, slots: m.slots.update(h - 1, (Seq::empty(), false, 0)) }, Ok(()))
        }
    }
}

pub open spec fn vec_result_view(r: Result<Vec<i64>, HandleError>) -> Result<Seq<i64>, HandleError> {
    match r {
        Ok(v) => Ok(v@),
        Err(e) => Err(e),
    }
}

fn copy_fields(v: &Vec<i64>) -> (r: Vec<i64>)
    ensures
        r@ == v@,
{
    let mut r: Vec<i64> = Vec::new();
    let mut i: usize = 0;
    while i < v.len()
        invariant
            0 <= i <= v.len(),
            r@ == v@.take(i as int),
        decreases v.len() - i,
    {
        r.push(v[i]);
        i = i + 1;
        assert(r@ =~= v@.take(i as int));
    }
    assert(v@.take(i as int) =~= v@);
    r
}

impl HandleTable {
    pub fn new(policy: OwnershipPolicy) -> (r: HandleTable)
        ensures
            r@.policy == policy,
            r@.slots.len() == 0,
    {
        HandleTable { policy, slots: Vec::new() }
    }

    /// OUT: boxes a value and returns the handle that the foreign side keeps.
    pub fn box_object(&mut self, fields: Vec<i64>) -> (h: u64)
        requires
            old(self)@.slots.len() + 1 < u64::MAX,
        ensures
            (final(self)@, h) == box_spec(old(self)@, fields@),
            h != 0,
    {
        self.slots.push(Slot { fields, live: true, owners: 1 });
        assert(self@.slots =~= old(self)@.slots.push((fields@, true, 1)));
        self.slots.len() as u64
    }

    /// IN: turns a handle back into a value. Under `Unique` the value moves
    /// out and the handle is spent; under `CopyValue` a copy comes out; under
    /// `SharedCount` a copy comes out and the owner count grows by one.
    pub fn take(&mut self, h: u64) -> (r: Result<Vec<i64>, HandleError>)
        ensures
            (final(self)@, vec_result_view(r)) == take_spec(old(self)@, h),
    {
        if h == 0 {
            return Err(HandleError::Null);
        }
        if h as usize > self.slots.len() || h > self.slots.len() as u64 {
            return Err(HandleError::Unknown);
        }
        let i = (h - 1) as usize;
        assert(self@.slots[i as int] == self.slots@[i as int]@);
        if !self.slots[i].live {
            return Err(HandleError::Released);
        }
        match self.policy {
            OwnershipPolicy::Unique => {
                let v = copy_fields(&self.slots[i].fields);
                self.slots.set(i, Slot { fields: Vec::new(), live: false, owners: 0 });
                assert(self@.slots =~= old(self)@.slots.update(i as int, (Seq::empty(), false, 0)));
                Ok(v)
            },
            OwnershipPolicy::CopyValue => Ok(copy_fields(&self.slots[i].fields)),
            OwnershipPolicy::SharedCount => {
                let n = self.slots[i].owners;
                if n == u64::MAX {
                    return Err(HandleError::OwnerOverflow);
                }
                let v = copy_fields(&self.slots[i].fields);
                let w = copy_fields(&self.slots[i].fields);
                self.slots.set(i, Slot { fields: w, live: true, owners: n + 1 });
                assert(self@.slots =~= old(self)@.slots.update(i as int, (v@, true, (n + 1) as nat)));
                Ok(v)
            },
        }
    }

    /// The foreign side gives up its handle.
    pub fn release(&mut self, h: u64) -> (r: Result<(), HandleError>)
        ensures
            (final(self)@, r) == release_spec(old(self)@, h),
    {
        if h == 0 {
            return Err(HandleError::Null);
        }
        if h as usize > self.slots.len() || h > self.slots.len() as u64 {
            return Err(HandleError::Unknown);
        }
        let i = (h - 1) as usize;
        assert(self@.slots[i as int] == self.slots@[i as int]@);
        if !self.slots[i].live {
            return Err(HandleError::Released);
        }
        if self.policy == OwnershipPolicy::SharedCount {
            let n = self.slots[i].owners;
            let w = copy_fields(&self.slots[i].fields);
            let m: u64 = if n > 0 { n - 1 } else { 0 };
            self.slots.set(i, Slot { fields: w, live: false, owners: m });
            assert(self@.slots =~= old(self)@.slots.update(
                i as int,
                (old(self)@.slots[i as int].0, false, if n > 0 { (n - 1) as nat } else { 0 }),
            ));
        } else {
            self.slots.set(i, Slot { fields: Vec::new(), live: false, owners: 0 });
            assert(self@.slots =~= old(self)@.slots.update(i as int, (Seq::empty(), false, 0)));
        }
        Ok(())
    }

    /// Whether `h` names a boxed object that is still alive.
    pub fn is_live(&self, h: u64) -> (r: bool)
        ensures
            r == (1 <= h <= self@.slots.len() && self@.slots[h - 1].1),
    {
        if h == 0 || h as usize > self.slots.len() || h > self.slots.len() as u64 {
            return false;
        }
        assert(self@.slots[h - 1] == self.slots@[h - 1]@);
        self.slots[(h - 1) as usize].live
    }

    /// How many owners share the object under `h`, if there is one.
    pub fn owners(&self, h: u64) -> (r: Option<u64>)
        ensures
            r == (if 1 <= h <= self@.slots.len() {
                Some(self@.slots[h - 1].2 as u64)
            } else {
                None::<u64>
            }),
    {
        if h == 0 || h as usize > self.slots.len() || h > self.slots.len() as u64 {
            return None;
        }
        assert(self@.slots[h - 1] == self.slots@[h - 1]@);
        Some(self.slots[(h - 1) as usize].owners)
    }
}

/// OUT then IN gives back the value that went out, under every policy.
pub proof fn lemma_out_then_in(m: TableModel, fields: Seq<i64>)
    requires
        m.slots.len() + 1 < u64::MAX,
    ensures
        take_spec(box_spec(m, fields).0, box_spec(m, fields).1).1 == Ok::<Seq<i64>, HandleError>(fields),
{
}

/// Under `CopyValue` and `SharedCount` the handle stays valid after IN: a
/// second IN gives the same value again. Under `Unique` the handle is spent,
/// and a second IN is refused.
pub proof fn lemma_second_in(m: TableModel, fields: Seq<i64>)
    requires
        m.slots.len() + 1 < u64::MAX,
    ensures
        ({
            let (m1, h) = box_spec(m, fields);
            let m2 = take_spec(m1, h).0;
            if m.policy == OwnershipPolicy::Unique {
                take_spec(m2, h).1 == Err::<Seq<i64>, HandleError>(HandleError::Released)
            } else {
                take_spec(m2, h).1 == Ok::<Seq<i64>, HandleError>(fields)
            }
        }),
{
}

/// Under `SharedCount` each IN adds exactly one owner.
pub proof fn lemma_in_adds_one_owner(m: TableModel, h: u64)
    requires
        m.policy == OwnershipPolicy::SharedCount,
        1 <= h <= m.slots.len(),
        m.slots[h - 1].1,
        m.slots[h - 1].2 < u64::MAX,
    ensures
        take_spec(m, h).0.slots[h - 1].2 == m.slots[h - 1].2 + 1,
        take_spec(m, h).1 == Ok::<Seq<i64>, HandleError>(m.slots[h - 1].0),
{
}

} // verus!
