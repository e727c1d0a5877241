//! Records: text-valued fields addressed by name.
use vstd::prelude::*;

use crate::text::text_equal;

verus! {

/// A record as a mathematical value: its fields in order, as name and value.
pub type Record = Seq<(Seq<char>, Seq<char>)>;

/// The value of the first field of `r` named `name`.
pub open spec fn lookup(r: Record, name: Seq<char>) -> Option<Seq<char>>
    decreases r.len(),
{
    if r.len() == 0 {
        None
    } else if r[0].0 == name {
        Some(r[0].1)
    } else {
        lookup(r.drop_first(), name)
    }
}

/// One queried entity; every field value is text.
#[derive(Debug)]
pub struct GQLObject {
    pub attributes: Vec<(String, String)>,
}

impl View for GQLObject {
    type V = Record;

    open spec fn view(&self) -> Record {
        fields_view(self.attributes@)
    }
}

pub open spec fn fields_view(v: Seq<(String, String)>) -> Record {
    v.map_values(|f: (String, String)| (f.0@, f.1@))
}

/// The records of a sequence of objects.
pub open spec fn records(v: Seq<GQLObject>) -> Seq<Record> {
    v.map_values(|o: GQLObject| o@)
}

proof fn lemma_lookup_push(r: Record, k: Seq<char>, v: Seq<char>, m: Seq<char>)
    ensures
        lookup(r.push((k, v)), m) == (if lookup(r, m) is Some {
            lookup(r, m)
        } else if k == m {
            Some(v)
        } else {
            None
        }),
    decreases r.len(),
{
    if r.len() == 0 {
        assert(r.push((k, v)).drop_first() =~= r);
    } else {
        assert(r.push((k, v))[0] == r[0]);
        assert(r.push((k, v)).drop_first() =~= r.drop_first().push((k, v)));
        lemma_lookup_push(r.drop_first(), k, v, m);
    }
}

proof fn lemma_lookup_update(r: Record, i: int, k: Seq<char>, v: Seq<char>, m: Seq<char>)
    requires
        0 <= i < r.len(),
        r[i].0 == k,
        forall|j: int| 0 <= j < i ==> r[j].0 != k,
    ensures
        lookup(r.update(i, (k, v)), m) == (if m == k {
            Some(v)
        } else {
            lookup(r, m)
        }),
    decreases r.len(),
{
    if i == 0 {
        assert(r.update(i, (k, v)).drop_first() =~= r.drop_first());
    } else {
        assert(r.update(i, (k, v)).drop_first() =~= r.drop_first().update(i - 1, (k, v)));
        lemma_lookup_update(r.drop_first(), i - 1, k, v, m);
    }
}

impl GQLObject {
    /// A record with no fields.
    pub fn new() -> (r: GQLObject)
        ensures
            r@ == Seq::<(Seq<char>, Seq<char>)>::empty(),
    {
        let r = GQLObject { attributes: Vec::new() };
        assert(r@ =~= Seq::<(Seq<char>, Seq<char>)>::empty());
        r
    }

    /// The index of the first field named `name`, if any.
    fn position_of(&self, name: &str) -> (r: Option<usize>)
        ensures
            match r {
                Some(i) => i < self@.len() && self@[i as int].0 == name@ && forall|j: int|
                    0 <= j < i ==> self@[j].0 != name@,
                None => forall|j: int| 0 <= j < self@.len() ==> self@[j].0 != name@,
            },
    {
        let mut i: usize = 0;
        while i < self.attributes.len()
            invariant
                i <= self@.len(),
                self@.len() == self.attributes@.len(),
                forall|j: int| 0 <= j < i ==> self@[j].0 != name@,
            decreases self@.len() - i,
        {
            if text_equal(self.attributes[i].0.as_str(), name) {
                return Some(i);
            }
            i += 1;
        }
        None
    }

    /// The value of the field named `name`, if the record has one.
    pub fn get(&self, name: &str) -> (r: Option<String>)
        ensures
            match r {
                Some(v) => lookup(self@, name@) == Some(v@),
                None => lookup(self@, name@) is None,
            },
    {
        let p = self.position_of(name);
        proof {
            self.lemma_lookup_first(name@);
        }
        match p {
            Some(i) => Some(self.attributes[i].1.clone()),
            None => None,
        }
    }

    proof fn lemma_lookup_first(&self, name: Seq<char>)
        ensures
            forall|i: int|
                0 <= i < self@.len() && self@[i].0 == name && (forall|j: int|
                    0 <= j < i ==> self@[j].0 != name) ==> lookup(self@, name) == Some(
                    self@[i].1,
                ),
            (forall|j: int| 0 <= j < self@.len() ==> self@[j].0 != name) ==> lookup(
                self@,
                name,
            ) is None,
    {
        lemma_lookup_first_index(self@, name);
    }

    /// Whether the record has a field named `name`.
    pub fn contains_key(&self, name: &str) -> (r: bool)
        ensures
            r == lookup(self@, name@) is Some,
    {
        proof {
            self.lemma_lookup_first(name@);
        }
        self.position_of(name).is_some()
    }

    /// Sets the field `name` to `value`, replacing the value it had.
    pub fn insert(&mut self, name: String, value: String)
        ensures
            lookup(final(self)@, name@) == Some(value@),
            forall|m: Seq<char>| m != name@ ==> lookup(final(self)@, m) == lookup(old(self)@, m),
    {
        let ghost k = name@;
        let ghost v = value@;
        match self.position_of(name.as_str()) {
            Some(i) => {
                self.attributes.remove(i);
                self.attributes.insert(i, (name, value));
                proof {
                    assert(self@ =~= old(self)@.update(i as int, (k, v)));
                    assert forall|m: Seq<char>|
                        lookup(self@, m) == (if m == k {
                            Some(v)
                        } else {
                            lookup(old(self)@, m)
                        }) by {
                        lemma_lookup_update(old(self)@, i as int, k, v, m);
                    }
                }
            },
            None => {
                self.attributes.push((name, value));
                proof {
                    assert(self@ =~= old(self)@.push((k, v)));
                    lemma_lookup_first_index(old(self)@, k);
                    assert forall|m: Seq<char>|
                        lookup(self@, m) == (if lookup(old(self)@, m) is Some {
                            lookup(old(self)@, m)
                        } else if k == m {
                            Some(v)
                        } else {
                            None
                        }) by {
                        lemma_lookup_push(old(self)@, k, v, m);
                    }
                }
            },
        }
    }

    /// A record with the same fields.
    pub fn duplicate(&self) -> (r: GQLObject)
        ensures
            r@ == self@,
    {
        let mut attributes: Vec<(String, String)> = Vec::new();
        let mut i: usize = 0;
        while i < self.attributes.len()
            invariant
                i <= self.attributes@.len(),
                fields_view(attributes@) == self@.subrange(
                    0,
                    i as int,
                ),
            decreases self.attributes@.len() - i,
        {
            let name = self.attributes[i].0.clone();
            let value = self.attributes[i].1.clone();
            let ghost before = attributes@;
            let ghost pair = (name, value);
            assert(pair.0@ == self@[i as int].0 && pair.1@ == self@[i as int].1);
            attributes.push((name, value));
            assert(attributes@ == before.push(pair));
            assert(fields_view(before.push(pair)) =~= fields_view(before).push((pair.0@, pair.1@)));
            assert(fields_view(attributes@) =~= self@.subrange(
                0,
                i + 1,
            ));
            i += 1;
        }
        let r = GQLObject { attributes };
        assert(r@ =~= self@);
        r
    }
}

proof fn lemma_lookup_first_index(r: Record, name: Seq<char>)
    ensures
        forall|i: int|
            0 <= i < r.len() && r[i].0 == name && (forall|j: int| 0 <= j < i ==> r[j].0 != name)
                ==> lookup(r, name) == Some(r[i].1),
        (forall|j: int| 0 <= j < r.len() ==> r[j].0 != name) ==> lookup(r, name) is None,
    decreases r.len(),
{
    if r.len() > 0 {
        lemma_lookup_first_index(r.drop_first(), name);
        assert forall|i: int|
            0 <= i < r.len() && r[i].0 == name && (forall|j: int| 0 <= j < i ==> r[j].0 != name)
                implies lookup(r, name) == Some(r[i].1) by {
            if i > 0 {
                assert(r.drop_first()[i - 1] == r[i]);
                assert forall|j: int| 0 <= j < i - 1 implies r.drop_first()[j].0 != name by {
                    assert(r.drop_first()[j] == r[j + 1]);
                }
            }
        }
        if forall|j: int| 0 <= j < r.len() ==> r[j].0 != name {
            assert forall|j: int| 0 <= j < r.drop_first().len() implies r.drop_first()[j].0
                != name by {
                assert(r.drop_first()[j] == r[j + 1]);
            }
        }
    }
}

} // verus!
