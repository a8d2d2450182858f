//! The header map — an ordered mapping from case-insensitive names to values —
//! and the typed-header registry traits that decode raw header text.
use vstd::prelude::*;

use crate::ascii::lower;

pub mod allow;
pub mod content_length;
pub mod max_forwards;
pub mod user_agent;

verus! {

/// One header line: a name (stored lower-cased) and its raw value bytes.
#[derive(Clone, Debug, PartialEq, Eq)]
pub struct HeaderEntry {
    pub name: Vec<u8>,
    pub value: Vec<u8>,
}

/// An ordered mapping from case-insensitive header names to values.
/// Insertion order is preserved; `insert` stores names lower-cased and
/// replaces the value of a name that is already present, in place.
#[derive(Clone, Debug, PartialEq, Eq)]
pub struct HeaderMap {
    entries: Vec<HeaderEntry>,
}

impl View for HeaderMap {
    type V = Seq<(Seq<u8>, Seq<u8>)>;

    closed spec fn view(&self) -> Seq<(Seq<u8>, Seq<u8>)> {
        self.entries@.map_values(|e: HeaderEntry| (e.name@, e.value@))
    }
}

/// The index of the first entry whose name matches `ln` case-insensitively,
/// or -1 when none does.
pub open spec fn find_name(m: Seq<(Seq<u8>, Seq<u8>)>, ln: Seq<u8>) -> int
    decreases m.len(),
{
    if m.len() == 0 {
        -1
    } else if lower(m[0].0) == ln {
        0
    } else {
        let r = find_name(m.drop_first(), ln);
        if r < 0 {
            -1
        } else {
            r + 1
        }
    }
}

pub proof fn lemma_find_name(m: Seq<(Seq<u8>, Seq<u8>)>, ln: Seq<u8>)
    ensures
        find_name(m, ln) == -1 ==> forall|j: int| 0 <= j < m.len() ==> lower(#[trigger] m[j].0) != ln,
        find_name(m, ln) != -1 ==> {
            let i = find_name(m, ln);
            &&& 0 <= i < m.len()
            &&& lower(m[i].0) == ln
            &&& forall|j: int| 0 <= j < i ==> lower(#[trigger] m[j].0) != ln
        },
    decreases m.len(),
{
    if m.len() > 0 && lower(m[0].0) != ln {
        lemma_find_name(m.drop_first(), ln);
        assert forall|j: int| 1 <= j < m.len() implies m.drop_first()[j - 1] == m[j] by {}
    }
}

/// What inserting a header does to the map's contents: the name is
/// lower-cased; a fresh name is appended, an existing one has its value
/// replaced in place.
pub open spec fn map_insert(
    m: Seq<(Seq<u8>, Seq<u8>)>,
    name: Seq<u8>,
    value: Seq<u8>,
) -> Seq<(Seq<u8>, Seq<u8>)> {
    let ln = lower(name);
    let i = find_name(m, ln);
    if i < 0 {
        m.push((ln, value))
    } else {
        m.update(i, (ln, value))
    }
}

/// The values stored under `name`, compared case-insensitively, in map order.
pub open spec fn map_get_all(m: Seq<(Seq<u8>, Seq<u8>)>, name: Seq<u8>) -> Seq<Seq<u8>> {
    m.filter(|e: (Seq<u8>, Seq<u8>)| lower(e.0) == lower(name)).map_values(
        |e: (Seq<u8>, Seq<u8>)| e.1,
    )
}

/// The values found under any of the alias names, alias order first and map
/// order within one alias.
pub open spec fn values_for(m: Seq<(Seq<u8>, Seq<u8>)>, aliases: Seq<Seq<u8>>) -> Seq<Seq<u8>>
    decreases aliases.len(),
{
    if aliases.len() == 0 {
        Seq::empty()
    } else {
        map_get_all(m, aliases[0]) + values_for(m, aliases.drop_first())
    }
}

/// Header lookup is case-insensitive: two names that agree up to ASCII case
/// resolve to the same values.
pub proof fn lemma_get_all_case_insensitive(
    m: Seq<(Seq<u8>, Seq<u8>)>,
    n1: Seq<u8>,
    n2: Seq<u8>,
)
    requires
        lower(n1) == lower(n2),
    ensures
        map_get_all(m, n1) == map_get_all(m, n2),
{
    assert((|e: (Seq<u8>, Seq<u8>)| lower(e.0) == lower(n1)) =~= (
    |e: (Seq<u8>, Seq<u8>)| lower(e.0) == lower(n2)));
}

proof fn lemma_get_all_snoc(m: Seq<(Seq<u8>, Seq<u8>)>, name: Seq<u8>)
    requires
        m.len() > 0,
    ensures
        map_get_all(m, name) == if lower(m.last().0) == lower(name) {
            map_get_all(m.drop_last(), name).push(m.last().1)
        } else {
            map_get_all(m.drop_last(), name)
        },
{
    reveal(Seq::filter);
    let p = |e: (Seq<u8>, Seq<u8>)| lower(e.0) == lower(name);
    if p(m.last()) {
        assert(map_get_all(m, name) =~= map_get_all(m.drop_last(), name).push(m.last().1));
    } else {
        assert(map_get_all(m, name) =~= map_get_all(m.drop_last(), name));
    }
}

impl HeaderMap {
    /// An empty header map.
    pub fn new() -> (r: Self)
        ensures
            r@ == Seq::<(Seq<u8>, Seq<u8>)>::empty(),
    {
        let r = HeaderMap { entries: Vec::new() };
        assert(r@ =~= Seq::<(Seq<u8>, Seq<u8>)>::empty());
        r
    }

    /// The number of entries.
    pub fn len(&self) -> (r: usize)
        ensures
            r == self@.len(),
    {
        self.entries.len()
    }

    /// The name of the entry at `i`, always stored lower-cased.
    pub fn name_at(&self, i: usize) -> (r: &Vec<u8>)
        requires
            i < self@.len(),
        ensures
            r@ == self@[i as int].0,
    {
        &self.entries[i].name
    }

    /// The value of the entry at `i`.
    pub fn value_at(&self, i: usize) -> (r: &Vec<u8>)
        requires
            i < self@.len(),
        ensures
            r@ == self@[i as int].1,
    {
        &self.entries[i].value
    }

    /// Store `value` under `name`: the name is lower-cased, a fresh name is
    /// appended at the end, an existing one keeps its position and has its
    /// value replaced.
    pub fn insert(&mut self, name: &[u8], value: Vec<u8>)
        ensures
            final(self)@ == map_insert(old(self)@, name@, value@),
    {
        let ln = crate::ascii::lower_bytes(name);
        let ghost m = self@;
        let mut i: usize = 0;
        while i < self.entries.len()
            invariant
                self == old(self),
                m == self@,
                ln@ == lower(name@),
                0 <= i <= self@.len(),
                forall|j: int| 0 <= j < i ==> lower(#[trigger] m[j].0) != ln@,
            decreases self@.len() - i,
        {
            let stored = crate::ascii::lower_bytes(self.entries[i].name.as_slice());
            if crate::ascii::bytes_eq(stored.as_slice(), ln.as_slice()) {
                proof {
                    assert(lower(m[i as int].0) == ln@);
                    lemma_find_name(m, ln@);
                    let f = find_name(m, ln@);
                    if f == -1 {
                        assert(lower(m[i as int].0) != ln@);
                    } else if f < i {
                        assert(lower(m[f].0) != ln@);
                    } else if f > i {
                        assert(lower(m[i as int].0) != ln@);
                    }
                    assert(f == i);
                }
                let e = vstd::std_specs::vec::vec_index_mut(&mut self.entries, i);
                *e = HeaderEntry { name: ln, value };
                assert(self@ =~= map_insert(m, name@, value@));
                return ;
            }
            i = i + 1;
        }
        proof {
            lemma_find_name(m, ln@);
        }
        self.entries.push(HeaderEntry { name: ln, value });
        assert(self@ =~= map_insert(m, name@, value@));
    }

    /// All values stored under `name`, matched case-insensitively, in map
    /// order.
    pub fn get_all(&self, name: &[u8]) -> (r: Vec<Vec<u8>>)
        ensures
            r@.map_values(|v: Vec<u8>| v@) == map_get_all(self@, name@),
    {
        let mut out: Vec<Vec<u8>> = Vec::new();
        let ln = crate::ascii::lower_bytes(name);
        let mut i: usize = 0;
        while i < self.entries.len()
            invariant
                ln@ == lower(name@),
                0 <= i <= self@.len(),
                out@.map_values(|v: Vec<u8>| v@) == map_get_all(self@.take(i as int), name@),
            decreases self@.len() - i,
        {
            let ghost pre = out@.map_values(|v: Vec<u8>| v@);
            let stored = crate::ascii::lower_bytes(self.entries[i].name.as_slice());
            if crate::ascii::bytes_eq(stored.as_slice(), ln.as_slice()) {
                out.push(self.entries[i].value.clone());
            }
            proof {
                assert(self@.take(i + 1).drop_last() =~= self@.take(i as int));
                assert(self@.take(i + 1).last() == self@[i as int]);
                lemma_get_all_snoc(self@.take(i + 1), name@);
                if lower(self@[i as int].0) == lower(name@) {
                    assert(out@.map_values(|v: Vec<u8>| v@) =~= pre.push(self@[i as int].1));
                } else {
                    assert(out@.map_values(|v: Vec<u8>| v@) =~= pre);
                }
            }
            i = i + 1;
        }
        assert(self@.take(self@.len() as int) =~= self@);
        out
    }
}

/// A typed header: a set of recognised alias names and a decode operation
/// from the raw values found under those names.
pub trait ParseHeader: Sized + View {
    /// The alias names this header is recognised under, lower-case.
    spec fn spec_aliases() -> Seq<Seq<u8>>;

    /// What decoding a sequence of raw values yields, as a value of the
    /// type's mathematical model; `None` both when no value is present and
    /// when the first value does not parse.
    spec fn spec_decode(values: Seq<Seq<u8>>) -> Option<Self::V>;

    /// The recognised alias names, in lookup order.
    fn header_name() -> (r: Vec<Vec<u8>>)
        ensures
            r@.map_values(|v: Vec<u8>| v@) == Self::spec_aliases(),
    ;

    /// Decode the raw values found under this header's aliases.
    fn decode(values: &Vec<Vec<u8>>) -> (r: Option<Self>)
        ensures
            match r {
                Some(t) => Self::spec_decode(values@.map_values(|v: Vec<u8>| v@)) == Some(t@),
                None => Self::spec_decode(values@.map_values(|v: Vec<u8>| v@)) is None,
            },
    ;
}

/// A typed header that can also be rendered back to header text.
pub trait EncodeHeader: Into<String> {

}

/// Typed lookup on a header map.
pub trait HeaderMapParse {
    /// The map's contents, as (name, value) byte sequences in map order.
    spec fn entries(&self) -> Seq<(Seq<u8>, Seq<u8>)>;

    /// Decode the typed header `T` from the first value found under any of
    /// its alias names.
    fn typed_get<T: ParseHeader>(&self) -> (r: Option<T>)
        ensures
            match r {
                Some(t) => T::spec_decode(values_for(self.entries(), T::spec_aliases())) == Some(
                    t@,
                ),
                None => T::spec_decode(values_for(self.entries(), T::spec_aliases())) is None,
            },
    ;
}

proof fn lemma_values_for_snoc(m: Seq<(Seq<u8>, Seq<u8>)>, aliases: Seq<Seq<u8>>)
    requires
        aliases.len() > 0,
    ensures
        values_for(m, aliases) == values_for(m, aliases.drop_last()) + map_get_all(
            m,
            aliases.last(),
        ),
    decreases aliases.len(),
{
    if aliases.len() == 1 {
        assert(aliases.drop_first() =~= Seq::<Seq<u8>>::empty());
        assert(aliases.drop_last() =~= Seq::<Seq<u8>>::empty());
        assert(values_for(m, aliases) =~= values_for(m, aliases.drop_last()) + map_get_all(
            m,
            aliases.last(),
        ));
    } else {
        lemma_values_for_snoc(m, aliases.drop_first());
        assert(aliases.drop_first().drop_last() =~= aliases.drop_last().drop_first());
        assert(aliases.drop_first().last() == aliases.last());
        assert(aliases.drop_last()[0] == aliases[0]);
        assert(values_for(m, aliases) =~= values_for(m, aliases.drop_last()) + map_get_all(
            m,
            aliases.last(),
        ));
    }
}

impl HeaderMapParse for HeaderMap {
    open spec fn entries(&self) -> Seq<(Seq<u8>, Seq<u8>)> {
        self@
    }

    fn typed_get<T: ParseHeader>(&self) -> (r: Option<T>) {
        let aliases = T::header_name();
        let mut values: Vec<Vec<u8>> = Vec::new();
        let mut i: usize = 0;
        while i < aliases.len()
            invariant
                aliases@.map_values(|v: Vec<u8>| v@) == T::spec_aliases(),
                0 <= i <= aliases@.len(),
                values@.map_values(|v: Vec<u8>| v@) == values_for(
                    self@,
                    T::spec_aliases().take(i as int),
                ),
            decreases aliases@.len() - i,
        {
            let ghost pre = values@.map_values(|v: Vec<u8>| v@);
            let mut found = self.get_all(aliases[i].as_slice());
            values.append(&mut found);
            proof {
                let al = T::spec_aliases();
                assert(al.take(i + 1).drop_last() =~= al.take(i as int));
                assert(al.take(i + 1).last() == al[i as int]);
                lemma_values_for_snoc(self@, al.take(i + 1));
                assert(aliases@.map_values(|v: Vec<u8>| v@)[i as int] == aliases@[i as int]@);
                assert(values@.map_values(|v: Vec<u8>| v@) =~= pre + map_get_all(
                    self@,
                    al[i as int],
                ));
            }
            i = i + 1;
        }
        proof {
            assert(T::spec_aliases().take(T::spec_aliases().len() as int) =~= T::spec_aliases());
        }
        T::decode(&values)
    }
}

} // verus!
