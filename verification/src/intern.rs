//! Interning of types: each distinct type gets a compact numeric id.
use vstd::prelude::*;
use crate::types::{Type, SType, tviews, lemma_tviews_index};
use crate::equality::type_eq;

verus! {

/// The id of an interned type.
pub type TypeId = u64;

/// The index of `t` in `s`, if it occurs.
pub open spec fn index_of(s: Seq<SType>, t: SType) -> Option<int> {
    if exists|i: int| 0 <= i < s.len() && s[i] == t {
        Some(choose|i: int| 0 <= i < s.len() && s[i] == t)
    } else {
        None
    }
}

/// No type occurs twice.
pub open spec fn distinct(s: Seq<SType>) -> bool {
    forall|i: int, j: int| 0 <= i < j < s.len() ==> #[trigger] s[i] != #[trigger] s[j]
}

/// The primitive types that a new interner holds, in id order.
pub open spec fn primitives() -> Seq<SType> {
    seq![
        SType::Any,
        SType::Never,
        SType::NoneType,
        SType::Bool,
        SType::Int,
        SType::Float,
        SType::Str,
        SType::Bytes,
    ]
}

/// Interned types: the id of a type is its position in the table.
pub struct TypeInterner {
    types: Vec<Type>,
}

impl TypeInterner {
    #[verifier::type_invariant]
    spec fn inv(&self) -> bool {
        distinct(tviews(self.types@))
    }

    /// The interned types, by id.
    pub closed spec fn table(&self) -> Seq<SType> {
        tviews(self.types@)
    }

    /// An interner holding the primitive types.
    pub fn new() -> (r: Self)
        ensures
            r.table() == primitives(),
            distinct(r.table()),
    {
        let mut r = TypeInterner { types: Vec::new() };
        assert(r.table() =~= Seq::<SType>::empty());
        r.intern(Type::Any);
        r.intern(Type::Never);
        r.intern(Type::NoneType);
        r.intern(Type::Bool);
        r.intern(Type::Int);
        r.intern(Type::Float);
        r.intern(Type::Str);
        r.intern(Type::Bytes);
        assert(r.table() =~= primitives());
        proof {
            use_type_invariant(&r);
        }
        r
    }

    fn position(&self, ty: &Type) -> (r: Option<usize>)
        ensures
            r matches Some(i) ==> i < self.table().len() && self.table()[i as int] == ty@,
            r is None ==> forall|i: int| 0 <= i < self.table().len() ==> #[trigger] self.table()[i] != ty@,
    {
        let mut i: usize = 0;
        while i < self.types.len()
            invariant
                0 <= i <= self.types.len(),
                self.table() == tviews(self.types@),
                forall|j: int| 0 <= j < i ==> #[trigger] self.table()[j] != ty@,
            decreases self.types.len() - i,
        {
            proof {
                lemma_tviews_index(self.types@, i as int);
            }
            if type_eq(&self.types[i], ty) {
                return Some(i);
            }
            i += 1;
        }
        None
    }

    /// The id of a type, interning it if it is new.
    pub fn intern(&mut self, ty: Type) -> (r: TypeId)
        ensures
            final(self).table() == if old(self).table().contains(ty@) {
                old(self).table()
            } else {
                old(self).table().push(ty@)
            },
            r < final(self).table().len(),
            final(self).table()[r as int] == ty@,
            distinct(final(self).table()),
            final(self).table() == table_after(old(self).table(), seq![ty@]),
    {
        proof {
            use_type_invariant(&*self);
        }
        let ghost tv0 = ty@;
        assert(seq![tv0].drop_last() =~= Seq::<SType>::empty());
        assert(table_after(old(self).table(), Seq::<SType>::empty()) == old(self).table());
        assert(seq![tv0].last() == tv0);
        let r = match self.position(&ty) {
            Some(i) => {
                assert(old(self).table()[i as int] == ty@);
                i as u64
            },
            None => {
                let ghost tv = ty@;
                let n = self.types.len();
                let mut v: Vec<Type> = Vec::new();
                std::mem::swap(&mut v, &mut self.types);
                v.push(ty);
                assert(tviews(v@) =~= old(self).table().push(tv));
                assert(!old(self).table().contains(tv));
                assert(distinct(tviews(v@))) by {
                    let t = tviews(v@);
                    assert forall|a: int, b: int| 0 <= a < b < t.len() implies #[trigger] t[a] != #[trigger] t[b] by {
                        if b == t.len() - 1 {
                            assert(old(self).table()[a] == t[a]);
                        } else {
                            assert(old(self).table()[a] == t[a] && old(self).table()[b] == t[b]);
                        }
                    }
                }
                self.types = v;
                assert(self.table() =~= old(self).table().push(tv));
                assert(!old(self).table().contains(tv));
                n as u64
            },
        };
        proof {
            use_type_invariant(&*self);
        }
        r
    }

    /// The ids of several types, interning the new ones, in order.
    pub fn intern_many(&mut self, types: &[Type]) -> (r: Vec<TypeId>)
        ensures
            r@.len() == types@.len(),
            forall|i: int| 0 <= i < types@.len() ==> #[trigger] r@[i] < final(self).table().len() && final(self).table()[r@[i] as int] == types@[i]@,
            old(self).table().is_prefix_of(final(self).table()),
            forall|i: int| 0 <= i < final(self).table().len() ==> old(self).table().contains(#[trigger] final(self).table()[i]) || exists|j: int| 0 <= j < types@.len() && types@[j]@ == final(self).table()[i],
            final(self).table() == table_after(old(self).table(), tviews(types@)),
    {
        let mut ids: Vec<TypeId> = Vec::new();
        let mut i: usize = 0;
        while i < types.len()
            invariant
                0 <= i <= types.len(),
                ids@.len() == i,
                old(self).table().is_prefix_of(self.table()),
                forall|k: int| 0 <= k < i ==> #[trigger] ids@[k] < self.table().len() && self.table()[ids@[k] as int] == types@[k]@,
                forall|k: int| 0 <= k < self.table().len() ==> old(self).table().contains(#[trigger] self.table()[k]) || exists|j: int| 0 <= j < i && types@[j]@ == self.table()[k],
                self.table() == table_after(old(self).table(), tviews(types@).take(i as int)),
            decreases types.len() - i,
        {
            let ghost before = self.table();
            proof {
                lemma_tviews_index(types@, i as int);
                assert(tviews(types@).take(i + 1).drop_last() =~= tviews(types@).take(i as int));
                assert(tviews(types@).take(i + 1).last() == types@[i as int]@);
            }
            let t = types[i].clone();
            assert(t@ == types@[i as int]@);
            let id = self.intern(t);
            proof {
                lemma_table_after_concat(old(self).table(), tviews(types@).take(i as int), seq![types@[i as int]@]);
                assert(tviews(types@).take(i as int) + seq![types@[i as int]@] =~= tviews(types@).take(i + 1));
            }
            ids.push(id);
            assert forall|k: int| 0 <= k < self.table().len() implies old(self).table().contains(#[trigger] self.table()[k]) || exists|j: int| 0 <= j < i + 1 && types@[j]@ == self.table()[k] by {
                if k < before.len() {
                    assert(self.table()[k] == before[k]);
                } else {
                    assert(self.table()[k] == types@[i as int]@);
                }
            }
            assert(old(self).table().is_prefix_of(self.table())) by {
                assert forall|k: int| 0 <= k < old(self).table().len() implies self.table()[k] == old(self).table()[k] by {
                    assert(self.table()[k] == before[k]);
                }
            }
            i += 1;
        }
        assert(tviews(types@).take(types.len() as int) =~= tviews(types@));
        ids
    }

    /// The id of a type, if it is interned.
    pub fn get_id(&self, ty: &Type) -> (r: Option<TypeId>)
        ensures
            r matches Some(id) ==> id < self.table().len() && self.table()[id as int] == ty@,
            r is None <==> !self.table().contains(ty@),
            distinct(self.table()),
    {
        proof {
            use_type_invariant(self);
        }
        match self.position(ty) {
            Some(i) => Some(i as u64),
            None => None,
        }
    }

    /// The type of an id, if it is one.
    pub fn get_type(&self, id: TypeId) -> (r: Option<Type>)
        ensures
            r matches Some(t) ==> id < self.table().len() && t@ == self.table()[id as int],
            r is None <==> id >= self.table().len(),
    {
        if id < self.types.len() as u64 {
            proof {
                lemma_tviews_index(self.types@, id as int);
            }
            Some(self.types[id as usize].clone())
        } else {
            None
        }
    }

    /// Whether a type is interned.
    pub fn contains(&self, ty: &Type) -> (r: bool)
        ensures
            r == self.table().contains(ty@),
    {
        self.position(ty).is_some()
    }

    /// The number of interned types.
    pub fn len(&self) -> (r: usize)
        ensures
            r == self.table().len(),
    {
        self.types.len()
    }

    /// Forgets every interned type.
    pub fn clear(&mut self)
        ensures
            final(self).table() == Seq::<SType>::empty(),
    {
        self.types = Vec::new();
        assert(self.table() =~= Seq::<SType>::empty());
    }
}

/// The id of a type in an interner, interning it if it is new.
pub fn intern(interner: &mut TypeInterner, ty: Type) -> (r: TypeId)
    ensures
        final(interner).table() == if old(interner).table().contains(ty@) {
            old(interner).table()
        } else {
            old(interner).table().push(ty@)
        },
        r < final(interner).table().len(),
        final(interner).table()[r as int] == ty@,
        distinct(final(interner).table()),
{
    interner.intern(ty)
}

/// The ids of several types in an interner.
pub fn intern_many(interner: &mut TypeInterner, types: &[Type]) -> (r: Vec<TypeId>)
    ensures
        r@.len() == types@.len(),
        forall|i: int| 0 <= i < types@.len() ==> #[trigger] r@[i] < final(interner).table().len() && final(interner).table()[r@[i] as int] == types@[i]@,
        old(interner).table().is_prefix_of(final(interner).table()),
{
    interner.intern_many(types)
}

/// The type of an id in an interner.
pub fn get_type(interner: &TypeInterner, id: TypeId) -> (r: Option<Type>)
    ensures
        r matches Some(t) ==> id < interner.table().len() && t@ == interner.table()[id as int],
        r is None <==> id >= interner.table().len(),
{
    interner.get_type(id)
}

/// The id of a type in an interner.
pub fn get_id(interner: &TypeInterner, ty: &Type) -> (r: Option<TypeId>)
    ensures
        r matches Some(id) ==> id < interner.table().len() && interner.table()[id as int] == ty@,
        r is None <==> !interner.table().contains(ty@),
        distinct(interner.table()),
{
    interner.get_id(ty)
}

/// Ids identify types: in a table without repetitions (every interner's table), two ids
/// that give the same type are equal, so interning a type again gives the same id.
pub proof fn lemma_ids_identify_types(table: Seq<SType>, a: TypeId, b: TypeId)
    requires
        distinct(table),
        a < table.len(),
        b < table.len(),
        table[a as int] == table[b as int],
    ensures
        a == b,
{
    if a < b {
        assert(table[a as int] != table[b as int]);
    } else if b < a {
        assert(table[b as int] != table[a as int]);
    }
}

/// The table of an interner that started with `start` and then interned `calls` in order:
/// each call adds its type at the end unless the table holds it already.
pub open spec fn table_after(start: Seq<SType>, calls: Seq<SType>) -> Seq<SType>
    decreases calls.len(),
{
    if calls.len() == 0 {
        start
    } else {
        let prev = table_after(start, calls.drop_last());
        if prev.contains(calls.last()) {
            prev
        } else {
            prev.push(calls.last())
        }
    }
}

/// Interning `c1` and then `c2` leaves the table that interning them in one go does.
pub proof fn lemma_table_after_concat(start: Seq<SType>, c1: Seq<SType>, c2: Seq<SType>)
    ensures
        table_after(table_after(start, c1), c2) == table_after(start, c1 + c2),
    decreases c2.len(),
{
    if c2.len() == 0 {
        assert(c1 + c2 =~= c1);
    } else {
        lemma_table_after_concat(start, c1, c2.drop_last());
        assert((c1 + c2).drop_last() =~= c1 + c2.drop_last());
        assert((c1 + c2).last() == c2.last());
    }
}

/// An interner that has interned some types holds exactly those it started with and those
/// types: `get_id` finds a type interned earlier, and gives `None` for one that was never
/// interned and was not there from the start (for a new interner, a primitive type).
pub proof fn lemma_interned_exactly(start: Seq<SType>, calls: Seq<SType>, u: SType)
    ensures
        table_after(start, calls).contains(u) <==> (start.contains(u) || calls.contains(u)),
    decreases calls.len(),
{
    if calls.len() > 0 {
        let d = calls.drop_last();
        let l = calls.last();
        let prev = table_after(start, d);
        lemma_interned_exactly(start, d, u);
        lemma_interned_exactly(start, d, l);
        if calls.contains(u) && !d.contains(u) {
            let k = choose|k: int| 0 <= k < calls.len() && calls[k] == u;
            if k < d.len() {
                assert(d[k] == u);
            }
            assert(u == l);
        }
        if d.contains(u) {
            let k = choose|k: int| 0 <= k < d.len() && d[k] == u;
            assert(calls[k] == u);
        }
        if u == l {
            assert(calls[calls.len() - 1] == u);
            if !prev.contains(l) {
                assert(prev.push(l)[prev.len() as int] == u);
            }
        }
        if prev.contains(u) && !prev.contains(l) {
            let k = choose|k: int| 0 <= k < prev.len() && prev[k] == u;
            assert(prev.push(l)[k] == u);
        }
        if !prev.contains(l) && prev.push(l).contains(u) {
            let k = choose|k: int| 0 <= k < prev.len() + 1 && prev.push(l)[k] == u;
            if k < prev.len() {
                assert(prev[k] == u);
            }
        }
    }
}

} // verus!
