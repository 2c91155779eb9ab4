use vstd::prelude::*;

verus! {

/// A value of the keyed-archive document.
///
/// Reals are carried as IEEE-754 bit patterns: `SingleReal` holds a
/// single-precision value that the encoder widens to double precision.
#[derive(Debug)]
pub enum Plist {
    Str(String),
    Integer(i64),
    Boolean(bool),
    SingleReal(u32),
    Real(u64),
    Data(Vec<u8>),
    Uid(u64),
    Array(Vec<Plist>),
    Dict(Dict),
}

/// A keyed mapping that keeps its keys in order of first insertion.
#[derive(Debug)]
pub struct Dict {
    pub entries: Vec<(String, Plist)>,
}

/// Position of the first entry with key `k`, or -1.
pub open spec fn find_key(d: Seq<(Seq<char>, Plist)>, k: Seq<char>) -> int
    decreases d.len(),
{
    if d.len() == 0 {
        -1
    } else if d[0].0 == k {
        0
    } else {
        let r = find_key(d.drop_first(), k);
        if r < 0 { -1 } else { r + 1 }
    }
}

/// Inserting `(k, v)`: an existing key keeps its place and takes the new
/// value; a new key goes last.
pub open spec fn dict_insert(d: Seq<(Seq<char>, Plist)>, k: Seq<char>, v: Plist) -> Seq<(Seq<char>, Plist)> {
    let i = find_key(d, k);
    if i < 0 {
        d.push((k, v))
    } else {
        d.update(i, (k, v))
    }
}

/// The mapping that inserting each of `ins`, in order, into `d` gives.
pub open spec fn insert_all(d: Seq<(Seq<char>, Plist)>, ins: Seq<(Seq<char>, Plist)>) -> Seq<(Seq<char>, Plist)>
    decreases ins.len(),
{
    if ins.len() == 0 {
        d
    } else {
        let prev = insert_all(d, ins.drop_last());
        dict_insert(prev, ins.last().0, ins.last().1)
    }
}

/// No key occurs twice.
pub open spec fn keys_distinct(d: Seq<(Seq<char>, Plist)>) -> bool {
    forall|i: int, j: int| 0 <= i < j < d.len() ==> #[trigger] d[i].0 != #[trigger] d[j].0
}

pub proof fn lemma_insert_keeps_distinct(d: Seq<(Seq<char>, Plist)>, k: Seq<char>, v: Plist)
    requires
        keys_distinct(d),
    ensures
        keys_distinct(dict_insert(d, k, v)),
{
    lemma_find_key(d, k);
    let r = dict_insert(d, k, v);
    if find_key(d, k) < 0 {
        assert forall|i: int, j: int| 0 <= i < j < r.len() implies #[trigger] r[i].0 != #[trigger] r[j].0 by {
            if j == d.len() {
                assert(d[i].0 != k);
            }
        }
    }
}

pub proof fn lemma_insert_all_keeps_distinct(d: Seq<(Seq<char>, Plist)>, ins: Seq<(Seq<char>, Plist)>)
    requires
        keys_distinct(d),
    ensures
        keys_distinct(insert_all(d, ins)),
    decreases ins.len(),
{
    if ins.len() > 0 {
        lemma_insert_all_keeps_distinct(d, ins.drop_last());
        lemma_insert_keeps_distinct(insert_all(d, ins.drop_last()), ins.last().0, ins.last().1);
    }
}

pub proof fn lemma_find_key(d: Seq<(Seq<char>, Plist)>, k: Seq<char>)
    ensures
        -1 <= find_key(d, k) < d.len(),
        find_key(d, k) >= 0 ==> d[find_key(d, k)].0 == k,
        forall|j: int| 0 <= j < d.len() && (find_key(d, k) < 0 || j < find_key(d, k)) ==> d[j].0 != k,
    decreases d.len(),
{
    if d.len() > 0 {
        lemma_find_key(d.drop_first(), k);
        assert forall|j: int| 0 < j < d.len() implies d[j] == d.drop_first()[j - 1] by {}
    }
}

impl Dict {
    pub open spec fn view(&self) -> Seq<(Seq<char>, Plist)> {
        self.entries@.map_values(|e: (String, Plist)| (e.0@, e.1))
    }

    /// Each key occurs once.
    pub open spec fn well_formed(&self) -> bool {
        keys_distinct(self@)
    }

    pub fn new() -> (r: Dict)
        ensures
            r@ == Seq::<(Seq<char>, Plist)>::empty(),
            r.well_formed(),
    {
        let r = Dict { entries: Vec::new() };
        assert(r@ =~= Seq::<(Seq<char>, Plist)>::empty());
        r
    }

    /// Inserts `value` under `key`, replacing the value of an existing key in place.
    pub fn insert(&mut self, key: String, value: Plist)
        ensures
            final(self)@ == dict_insert(old(self)@, key@, value),
            old(self).well_formed() ==> final(self).well_formed(),
    {
        proof {
            lemma_find_key(self@, key@);
            if self.well_formed() {
                lemma_insert_keeps_distinct(self@, key@, value);
            }
        }
        let n = self.entries.len();
        let mut i: usize = 0;
        while i < n
            invariant
                n == self.entries@.len(),
                i <= n,
                self@ == old(self)@,
                forall|j: int| 0 <= j < i ==> self@[j].0 != key@,
            decreases n - i,
        {
            if self.entries[i].0 == key {
                proof {
                    lemma_find_key(self@, key@);
                    let f = find_key(self@, key@);
                    assert(self@[i as int].0 == key@);
                    if f < 0 || f > i {
                        assert(self@[i as int].0 != key@);
                    }
                    if 0 <= f < i {
                        assert(self@[f].0 != key@);
                    }
                    assert(f == i as int);
                }
                self.entries.set(i, (key, value));
                assert(self@ =~= dict_insert(old(self)@, key@, value));
                return;
            }
            i = i + 1;
        }
        proof {
            lemma_find_key(self@, key@);
            let f = find_key(self@, key@);
            if f >= 0 {
                assert(self@[f].0 != key@);
            }
        }
        self.entries.push((key, value));
        assert(self@ =~= dict_insert(old(self)@, key@, value));
    }
}

} // verus!
