//! An association list from names to values. The first entry with a given
//! name is the one that counts.

use vstd::prelude::*;

verus! {

#[derive(Debug)]
pub struct VarTable {
    pub entries: Vec<(String, String)>,
}

/// The value that the first entry named `key` holds.
pub open spec fn lookup(t: Seq<(Seq<char>, Seq<char>)>, key: Seq<char>) -> Option<Seq<char>>
    decreases t.len(),
{
    if t.len() == 0 {
        None
    } else if t[0].0 == key {
        Some(t[0].1)
    } else {
        lookup(t.drop_first(), key)
    }
}

/// The position of the first entry named `key`.
pub open spec fn position(t: Seq<(Seq<char>, Seq<char>)>, key: Seq<char>) -> Option<int>
    decreases t.len(),
{
    if t.len() == 0 {
        None
    } else if t[0].0 == key {
        Some(0)
    } else {
        match position(t.drop_first(), key) {
            Some(i) => Some(i + 1),
            None => None,
        }
    }
}

/// The table after `key` was given the value `val`: the first entry named
/// `key` is overwritten where there is one, else a new entry is added at the end.
pub open spec fn assign(t: Seq<(Seq<char>, Seq<char>)>, key: Seq<char>, val: Seq<char>) -> Seq<
    (Seq<char>, Seq<char>),
> {
    match position(t, key) {
        Some(i) => t.update(i, (key, val)),
        None => t.push((key, val)),
    }
}

pub proof fn lemma_position(t: Seq<(Seq<char>, Seq<char>)>, key: Seq<char>)
    ensures
        match position(t, key) {
            Some(i) => 0 <= i < t.len() && t[i].0 == key && lookup(t, key) == Some(t[i].1)
                && forall|j: int| 0 <= j < i ==> t[j].0 != key,
            None => lookup(t, key) is None && forall|j: int| 0 <= j < t.len() ==> t[j].0 != key,
        },
    decreases t.len(),
{
    if t.len() == 0 {
    } else if t[0].0 == key {
    } else {
        let rest = t.drop_first();
        lemma_position(rest, key);
        match position(rest, key) {
            Some(i) => {
                assert forall|j: int| 0 <= j < i + 1 implies t[j].0 != key by {
                    if j > 0 {
                        assert(rest[j - 1] == t[j]);
                    }
                }
            },
            None => {
                assert forall|j: int| 0 <= j < t.len() implies t[j].0 != key by {
                    if j > 0 {
                        assert(rest[j - 1] == t[j]);
                    }
                }
            },
        }
    }
}

/// A name that some entry before position `i` does not carry is looked up in
/// the rest of the table.
pub proof fn lemma_lookup_skip(t: Seq<(Seq<char>, Seq<char>)>, key: Seq<char>, i: int)
    requires
        0 <= i <= t.len(),
        forall|j: int| 0 <= j < i ==> t[j].0 != key,
    ensures
        lookup(t, key) == lookup(t.skip(i), key),
        position(t, key) == match position(t.skip(i), key) {
            Some(p) => Some(p + i),
            None => None,
        },
    decreases i,
{
    if i == 0 {
        assert(t.skip(0) =~= t);
    } else {
        assert forall|j: int| 0 <= j < i - 1 implies t.drop_first()[j].0 != key by {
            assert(t.drop_first()[j] == t[j + 1]);
        }
        lemma_lookup_skip(t.drop_first(), key, i - 1);
        assert(t.drop_first().skip(i - 1) =~= t.skip(i));
    }
}

/// Assigning to a name changes what that name holds and nothing else.
pub proof fn lemma_assign(
    t: Seq<(Seq<char>, Seq<char>)>,
    key: Seq<char>,
    val: Seq<char>,
    other: Seq<char>,
)
    ensures
        lookup(assign(t, key, val), other) == if other == key {
            Some(val)
        } else {
            lookup(t, other)
        },
    decreases t.len(),
{
    let a = assign(t, key, val);
    if t.len() == 0 {
        assert(a =~= seq![(key, val)]);
        assert(a.drop_first() =~= Seq::<(Seq<char>, Seq<char>)>::empty());
        assert(lookup(a.drop_first(), other) is None);
    } else if t[0].0 == key {
        assert(a =~= t.update(0, (key, val)));
        assert(a.drop_first() =~= t.drop_first());
    } else {
        let rest = t.drop_first();
        lemma_assign(rest, key, val, other);
        lemma_position(rest, key);
        assert(a.len() > 0 && a[0] == t[0]);
        assert(a.drop_first() =~= assign(rest, key, val));
    }
}

impl View for VarTable {
    type V = Seq<(Seq<char>, Seq<char>)>;

    open spec fn view(&self) -> Seq<(Seq<char>, Seq<char>)> {
        self.entries@.map_values(|e: (String, String)| (e.0@, e.1@))
    }
}

impl VarTable {
    pub fn new() -> (t: VarTable)
        ensures
            t@ == Seq::<(Seq<char>, Seq<char>)>::empty(),
    {
        let t = VarTable { entries: Vec::new() };
        assert(t@ =~= Seq::<(Seq<char>, Seq<char>)>::empty());
        t
    }

    /// The position of the first entry named `key`.
    pub fn find(&self, key: &str) -> (r: Option<usize>)
        ensures
            match r {
                Some(i) => position(self@, key@) == Some(i as int),
                None => position(self@, key@) is None,
            },
    {
        let k = String::from_str(key);
        let mut i: usize = 0;
        while i < self.entries.len()
            invariant
                i <= self.entries.len(),
                k@ == key@,
                forall|j: int| 0 <= j < i ==> self@[j].0 != key@,
            decreases self.entries.len() - i,
        {
            if self.entries[i].0 == k {
                proof {
                    lemma_lookup_skip(self@, key@, i as int);
                    assert(self@.skip(i as int)[0] == self@[i as int]);
                }
                return Some(i);
            }
            i += 1;
        }
        proof {
            lemma_lookup_skip(self@, key@, i as int);
            assert(self@.skip(i as int) =~= Seq::<(Seq<char>, Seq<char>)>::empty());
        }
        None
    }

    /// The value of `key`, if the table has it.
    pub fn get(&self, key: &str) -> (r: Option<&str>)
        ensures
            match r {
                Some(v) => lookup(self@, key@) == Some(v@),
                None => lookup(self@, key@) is None,
            },
    {
        proof {
            lemma_position(self@, key@);
        }
        match self.find(key) {
            Some(i) => Some(self.entries[i].1.as_str()),
            None => None,
        }
    }

    /// Gives `key` the value `val`.
    pub fn set(&mut self, key: &str, val: &str)
        ensures
            final(self)@ == assign(old(self)@, key@, val@),
    {
        let entry = (String::from_str(key), String::from_str(val));
        match self.find(key) {
            Some(i) => {
                proof {
                    lemma_position(self@, key@);
                }
                self.entries[i] = entry;
                assert(self@ =~= assign(old(self)@, key@, val@));
            },
            None => {
                self.entries.push(entry);
                assert(self@ =~= assign(old(self)@, key@, val@));
            },
        }
    }
}

} // verus!
