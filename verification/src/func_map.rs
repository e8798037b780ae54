//! Which registered user function serves which task or gateway name.
use vstd::prelude::*;
use crate::bpmn::{BpmnType, Id};

verus! {

/// The value of the last entry with the given key, if any.
pub open spec fn spec_last_entry(entries: Seq<(BpmnType, String, usize)>, key: (BpmnType, Seq<char>)) -> Option<usize>
    decreases entries.len(),
{
    if entries.len() == 0 {
        None
    } else {
        let e = entries.last();
        if e.0 == key.0 && e.1@ == key.1 {
            Some(e.2)
        } else {
            spec_last_entry(entries.drop_last(), key)
        }
    }
}

/// Registered functions by element kind and name (or id); a later registration
/// under the same kind and name replaces an earlier one.
#[derive(Debug)]
pub struct FuncMap {
    entries: Vec<(BpmnType, String, usize)>,
}

impl View for FuncMap {
    type V = Map<(BpmnType, Seq<char>), usize>;

    closed spec fn view(&self) -> Map<(BpmnType, Seq<char>), usize> {
        Map::new(
            |k: (BpmnType, Seq<char>)| spec_last_entry(self.entries@, k) is Some,
            |k: (BpmnType, Seq<char>)| spec_last_entry(self.entries@, k)->0,
        )
    }
}

/// Looks a key up: the value registered for it, if any.
pub open spec fn spec_get(m: Map<(BpmnType, Seq<char>), usize>, ty: BpmnType, key: Seq<char>) -> Option<usize> {
    if m.contains_key((ty, key)) {
        Some(m[(ty, key)])
    } else {
        None
    }
}

/// What an element resolves to: the function registered under its id, else
/// the one registered under its name.
pub open spec fn spec_resolve(
    m: Map<(BpmnType, Seq<char>), usize>,
    ty: BpmnType,
    id: Seq<char>,
    name: Option<Seq<char>>,
) -> Option<usize> {
    match spec_get(m, ty, id) {
        Some(v) => Some(v),
        None => match name {
            Some(n) => spec_get(m, ty, n),
            None => None,
        },
    }
}

impl FuncMap {
    /// No function registered.
    pub fn new() -> (r: FuncMap)
        ensures
            r@ == Map::<(BpmnType, Seq<char>), usize>::empty(),
    {
        let r = FuncMap { entries: Vec::new() };
        assert(r@ =~= Map::<(BpmnType, Seq<char>), usize>::empty());
        r
    }

    fn lookup(&self, ty: BpmnType, key: &str) -> (r: Option<usize>)
        ensures
            r == spec_get(self@, ty, key@),
    {
        let mut i = self.entries.len();
        proof {
            assert(self.entries@.subrange(0, i as int) =~= self.entries@);
        }
        while i > 0
            invariant
                i <= self.entries@.len(),
                spec_last_entry(self.entries@, (ty, key@))
                    == spec_last_entry(self.entries@.subrange(0, i as int), (ty, key@)),
            decreases i,
        {
            let e = &self.entries[i - 1];
            proof {
                assert(self.entries@.subrange(0, i as int).drop_last()
                    =~= self.entries@.subrange(0, i - 1));
            }
            if e.0 == ty && crate::text::str_eq(e.1.as_str(), key) {
                return Some(e.2);
            }
            i = i - 1;
        }
        proof {
            assert(self.entries@.subrange(0, 0) =~= Seq::<(BpmnType, String, usize)>::empty());
        }
        None
    }

    /// The function registered for an element: by its BPMN id first, then by its name.
    pub fn get_id(&self, ty: BpmnType, id: &Id, name: Option<&str>) -> (r: Option<usize>)
        ensures
            r == spec_resolve(self@, ty, id.bpmn_id@, match name { Some(n) => Some(n@), None => None }),
    {
        match self.lookup(ty, id.bpmn()) {
            Some(v) => Some(v),
            None => match name {
                Some(n) => self.lookup(ty, n),
                None => None,
            },
        }
    }

    /// Registers a function index under a kind and name; an earlier registration
    /// under the same kind and name is replaced.
    pub fn insert(&mut self, ty: BpmnType, name: String, index: usize)
        ensures
            final(self)@ == old(self)@.insert((ty, name@), index),
    {
        let ghost old_entries = self.entries@;
        self.entries.push((ty, name, index));
        proof {
            assert(self.entries@.drop_last() =~= old_entries);
            assert(self@ =~= old(self)@.insert((ty, name@), index));
        }
    }
}

/// A registration can be read back under its kind and name, and registering
/// leaves every other kind and name as it was.
pub proof fn lemma_insert_then_get(m: FuncMap, ty: BpmnType, name: Seq<char>, index: usize, other: (BpmnType, Seq<char>))
    ensures
        spec_get(m@.insert((ty, name), index), ty, name) == Some(index),
        other != (ty, name) ==> spec_get(m@.insert((ty, name), index), other.0, other.1)
            == spec_get(m@, other.0, other.1),
{
}

/// A function registered under an element's BPMN id serves the element, even
/// when the element has a name and another function is registered under it.
pub proof fn lemma_id_before_name(m: Map<(BpmnType, Seq<char>), usize>, ty: BpmnType, id: Seq<char>, name: Seq<char>)
    requires
        m.contains_key((ty, id)),
    ensures
        spec_resolve(m, ty, id, Some(name)) == Some(m[(ty, id)]),
        spec_resolve(m, ty, id, None) == Some(m[(ty, id)]),
{
}

/// Without a function under its id, an element is served by the function
/// registered under its name.
pub proof fn lemma_name_when_no_id(m: Map<(BpmnType, Seq<char>), usize>, ty: BpmnType, id: Seq<char>, name: Seq<char>)
    requires
        !m.contains_key((ty, id)),
    ensures
        spec_resolve(m, ty, id, Some(name)) == spec_get(m, ty, name),
{
}

} // verus!
