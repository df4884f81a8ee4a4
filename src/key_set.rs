//! Size-indexed sets of proving or verifying keys, with exact and best-fit lookup.
use vstd::prelude::*;

use crate::commit::{append_bytes, append_u64, concat, enc_u64, enc_var, keccak256, CommitmentBuilder, Digest};

use core::marker::PhantomData;

verus! {

/// A key made for transactions of a fixed number of inputs and outputs.
pub trait SizedKey: Sized {
    /// The (inputs, outputs) arity of the key.
    spec fn size(&self) -> (usize, usize);

    /// The canonical bytes of the key.
    spec fn encoding(&self) -> Seq<u8>;

    fn num_inputs(&self) -> (r: usize)
        ensures
            r == self.size().0,
    ;

    fn num_outputs(&self) -> (r: usize)
        ensures
            r == self.size().1,
    ;

    /// A copy of the key, of the same size and bytes.
    fn clone_key(&self) -> (r: Self)
        ensures
            r.size() == self.size(),
            r.encoding() == self.encoding(),
    ;

    /// Appends the canonical bytes of the key.
    fn append_encoding(&self, buf: &mut Vec<u8>)
        ensures
            final(buf)@ == old(buf)@ + self.encoding(),
    ;
}

/// How a key set orders its sizes: by inputs first, or by outputs first.
pub trait KeyOrder {
    spec fn outputs_first() -> bool;

    fn is_outputs_first() -> (r: bool)
        ensures
            r == Self::outputs_first(),
    ;
}

/// Orders sizes by number of inputs, then number of outputs.
#[derive(Clone, Copy, Debug, PartialEq, Eq)]
pub struct OrderByInputs;

/// Orders sizes by number of outputs, then number of inputs.
#[derive(Clone, Copy, Debug, PartialEq, Eq)]
pub struct OrderByOutputs;

impl KeyOrder for OrderByInputs {
    open spec fn outputs_first() -> bool {
        false
    }

    fn is_outputs_first() -> (r: bool) {
        false
    }
}

impl KeyOrder for OrderByOutputs {
    open spec fn outputs_first() -> bool {
        true
    }

    fn is_outputs_first() -> (r: bool) {
        true
    }
}

/// The sort key of a size under an order.
pub open spec fn sort_key(size: (usize, usize), outputs_first: bool) -> (usize, usize) {
    if outputs_first {
        (size.1, size.0)
    } else {
        size
    }
}

/// The sort key of a size under the order `O`.
pub fn sort_key_of<O: KeyOrder>(num_inputs: usize, num_outputs: usize) -> (r: (usize, usize))
    ensures
        r == sort_key((num_inputs, num_outputs), O::outputs_first()),
{
    if O::is_outputs_first() {
        (num_outputs, num_inputs)
    } else {
        (num_inputs, num_outputs)
    }
}

/// Lexicographic order on sort keys.
pub open spec fn key_lt(a: (usize, usize), b: (usize, usize)) -> bool {
    a.0 < b.0 || (a.0 == b.0 && a.1 < b.1)
}

pub open spec fn key_le(a: (usize, usize), b: (usize, usize)) -> bool {
    a == b || key_lt(a, b)
}

fn key_lt_exec(a: (usize, usize), b: (usize, usize)) -> (r: bool)
    ensures
        r == key_lt(a, b),
{
    a.0 < b.0 || (a.0 == b.0 && a.1 < b.1)
}

/// The sizes of a sequence of keys.
pub open spec fn sizes_of<K: SizedKey>(keys: Seq<K>) -> Seq<(usize, usize)> {
    keys.map_values(|k: K| k.size())
}

/// Whether the `j`-th size already occurs among the sizes before it.
pub open spec fn has_dup_at(s: Seq<(usize, usize)>, j: int) -> bool {
    0 <= j < s.len() && s.subrange(0, j).contains(s[j])
}

/// Why a key set could not be built.
#[derive(Clone, Copy, Debug, PartialEq, Eq, Structural)]
pub enum Error {
    DuplicateKeys { num_inputs: usize, num_outputs: usize },
    NoKeys,
}

/// A non-empty set of keys, at most one for each size, held in increasing
/// order of their sort keys. The keys live in a sorted `Vec` rather than an
/// ordered map: vstd specifies a map's `get` and `insert` but not the `range`
/// lookup that best fit needs, and on a sorted `Vec` that lookup is a scan
/// whose result is proved.
#[derive(Debug)]
pub struct KeySet<K: SizedKey, Order: KeyOrder> {
    keys: Vec<K>,
    order: PhantomData<Order>,
}

impl<K: SizedKey, Order: KeyOrder> KeySet<K, Order> {
    /// The keys, in increasing order of their sort keys.
    pub closed spec fn keys(&self) -> Seq<K> {
        self.keys@
    }

    /// The sizes of the keys, in the same order.
    pub open spec fn sizes(&self) -> Seq<(usize, usize)> {
        sizes_of(self.keys())
    }

    /// The sort key of the `i`-th key.
    pub open spec fn sort_key_at(&self, i: int) -> (usize, usize) {
        sort_key(self.sizes()[i], Order::outputs_first())
    }

    pub open spec fn wf(&self) -> bool {
        &&& self.keys().len() > 0
        &&& forall|i: int, j: int|
            0 <= i < j < self.keys().len() ==> key_lt(
                #[trigger] self.sort_key_at(i),
                #[trigger] self.sort_key_at(j),
            )
    }

    /// Builds a key set from `keys`. Fails with `DuplicateKeys`, carrying the
    /// size of the first key whose size occurs earlier, or with `NoKeys` when
    /// `keys` is empty; otherwise the set holds exactly the keys given.
    pub fn new(keys: Vec<K>) -> (r: Result<Self, Error>)
        ensures
            r.is_ok() <==> keys@.len() > 0 && !(exists|j: int| has_dup_at(sizes_of(keys@), j)),
            keys@.len() == 0 ==> r == Err::<Self, Error>(Error::NoKeys),
            forall|j: int|
                has_dup_at(sizes_of(keys@), j) && (forall|i: int| 0 <= i < j ==> !has_dup_at(sizes_of(keys@), i)) ==> r == Err::<Self, Error>(Error::DuplicateKeys { num_inputs: keys@[j].size().0, num_outputs: keys@[j].size().1 }),
            r.is_ok() ==> r.unwrap().wf(),
            r.is_ok() ==> r.unwrap().keys().to_multiset() == keys@.to_multiset(),
    {
        broadcast use vstd::seq_lib::to_multiset_insert, vstd::seq_lib::to_multiset_contains;

        let ghost input = keys@;
        assert(input.len() == keys.len());
        let ghost of = Order::outputs_first();
        let mut rest = keys;
        let mut sorted: Vec<K> = Vec::new();
        let mut taken: usize = 0;
        proof {
            assert(sorted@.to_multiset() =~= input.subrange(0, 0).to_multiset());
        }
        while rest.len() > 0
            invariant
                of == Order::outputs_first(),
                input == keys@,
                input.len() <= usize::MAX,
                rest@ == input.subrange(taken as int, input.len() as int),
                0 <= taken <= input.len(),
                forall|i: int| 0 <= i < taken ==> !has_dup_at(sizes_of(input), i),
                sorted@.to_multiset() == input.subrange(0, taken as int).to_multiset(),
                forall|i: int, j: int|
                    0 <= i < j < sorted@.len() ==> key_lt(
                        sort_key(#[trigger] sorted@[i].size(), of),
                        sort_key(#[trigger] sorted@[j].size(), of),
                    ),
            decreases rest@.len(),
        {
            let key = rest.remove(0);
            assert(key == input[taken as int]);
            let sk = sort_key_of::<Order>(key.num_inputs(), key.num_outputs());
            let mut p: usize = 0;
            while p < sorted.len() && key_lt_exec(
                sort_key_of::<Order>(sorted[p].num_inputs(), sorted[p].num_outputs()),
                sk,
            )
                invariant
                    0 <= p <= sorted@.len(),
                    sk == sort_key(key.size(), of),
                    of == Order::outputs_first(),
                    input == keys@,
                    input.len() <= usize::MAX,
                    taken < input.len(),
                    key == input[taken as int],
                    rest@ == input.subrange(taken + 1, input.len() as int),
                    forall|i: int| 0 <= i < taken ==> !has_dup_at(sizes_of(input), i),
                    sorted@.to_multiset() == input.subrange(0, taken as int).to_multiset(),
                    forall|i: int, j: int|
                        0 <= i < j < sorted@.len() ==> key_lt(
                            sort_key(#[trigger] sorted@[i].size(), of),
                            sort_key(#[trigger] sorted@[j].size(), of),
                        ),
                    forall|i: int| 0 <= i < p ==> key_lt(sort_key(#[trigger] sorted@[i].size(), of), sk),
                decreases sorted@.len() - p,
            {
                p = p + 1;
            }
            let ghost prefix = input.subrange(0, taken as int);
            if p < sorted.len() {
                let other = sort_key_of::<Order>(sorted[p].num_inputs(), sorted[p].num_outputs());
                if other.0 == sk.0 && other.1 == sk.1 {
                    proof {
                        let x = sorted@[p as int];
                        assert(x.size() == key.size());
                        assert(sorted@.contains(x));
                        sorted@.to_multiset_ensures();
                        prefix.to_multiset_ensures();
                        assert(prefix.to_multiset().count(x) > 0);
                        assert(prefix.contains(x));
                        let i = choose|i: int| 0 <= i < prefix.len() && prefix[i] == x;
                        assert(sizes_of(input)[i] == sizes_of(input)[taken as int]);
                        assert(sizes_of(input).subrange(0, taken as int)[i] == sizes_of(input)[taken as int]);
                        assert(has_dup_at(sizes_of(input), taken as int));
                        assert(input.len() > 0);
                        assert(input == keys@);
                    }
                    return Err(Error::DuplicateKeys {
                        num_inputs: key.num_inputs(),
                        num_outputs: key.num_outputs(),
                    });
                }
            }
            proof {
                assert forall|j: int| 0 <= j < sorted@.len() implies sorted@[j].size() != key.size() by {
                    if j < p {
                    } else {
                        assert(key_lt(sk, sort_key(sorted@[p as int].size(), of)));
                        if j > p {
                            assert(key_lt(sort_key(sorted@[p as int].size(), of), sort_key(sorted@[j].size(), of)));
                        }
                    }
                }
                assert(!has_dup_at(sizes_of(input), taken as int)) by {
                    if has_dup_at(sizes_of(input), taken as int) {
                        let ss = sizes_of(input).subrange(0, taken as int);
                        let i = choose|i: int| 0 <= i < ss.len() && ss[i] == sizes_of(input)[taken as int];
                        let x = input[i];
                        assert(prefix[i] == x);
                        assert(prefix.contains(x));
                        sorted@.to_multiset_ensures();
                        prefix.to_multiset_ensures();
                        assert(prefix.to_multiset().count(x) > 0);
                        assert(sorted@.contains(x));
                    }
                }
            }
            let ghost old_sorted = sorted@;
            sorted.insert(p, key);
            proof {
                old_sorted.insert_ensures(p as int, key);
                vstd::seq_lib::to_multiset_insert(old_sorted, p as int, key);
                assert(input.subrange(0, taken + 1) =~= prefix.push(key));
                prefix.to_multiset_ensures();
                assert forall|i: int, j: int|
                    0 <= i < j < sorted@.len() implies key_lt(
                        sort_key(#[trigger] sorted@[i].size(), of),
                        sort_key(#[trigger] sorted@[j].size(), of),
                    ) by {
                    if j < p {
                    } else if j == p {
                    } else if i < p {
                        assert(sorted@[j] == old_sorted[j - 1]);
                        if j - 1 > p {
                            assert(key_lt(sort_key(old_sorted[p as int].size(), of), sort_key(old_sorted[j - 1].size(), of)));
                        }
                        assert(key_lt(sk, sort_key(old_sorted[p as int].size(), of)));
                    } else if i == p {
                        assert(sorted@[j] == old_sorted[j - 1]);
                        if j - 1 > p {
                            assert(key_lt(sort_key(old_sorted[p as int].size(), of), sort_key(old_sorted[j - 1].size(), of)));
                        }
                        assert(key_lt(sk, sort_key(old_sorted[p as int].size(), of)));
                    } else {
                        assert(sorted@[j] == old_sorted[j - 1]);
                        assert(sorted@[i] == old_sorted[i - 1]);
                    }
                }
            }
            taken = taken + 1;
        }
        proof {
            assert(input.subrange(0, taken as int) =~= input);
        }
        if sorted.len() == 0 {
            proof {
                input.to_multiset_ensures();
                sorted@.to_multiset_ensures();
            }
            return Err(Error::NoKeys);
        }
        proof {
            input.to_multiset_ensures();
            sorted@.to_multiset_ensures();
        }
        let r = KeySet { keys: sorted, order: PhantomData };
        assert forall|i: int, j: int| 0 <= i < j < r.keys().len() implies key_lt(
                #[trigger] r.sort_key_at(i),
                #[trigger] r.sort_key_at(j),
            ) by {
            assert(r.sizes()[i] == r.keys()[i].size());
            assert(r.sizes()[j] == r.keys()[j].size());
        }
        Ok(r)
    }
}

impl<K: SizedKey, Order: KeyOrder> KeySet<K, Order> {
    /// The largest size held: the size of the last key in sort order.
    pub fn max_size(&self) -> (r: (usize, usize))
        requires
            self.wf(),
        ensures
            r == self.sizes().last(),
            forall|i: int|
                0 <= i < self.keys().len() ==> key_le(
                    #[trigger] self.sort_key_at(i),
                    sort_key(r, Order::outputs_first()),
                ),
    {
        let key = &self.keys[self.keys.len() - 1];
        let r = (key.num_inputs(), key.num_outputs());
        assert forall|i: int| 0 <= i < self.keys().len() implies key_le(
            #[trigger] self.sort_key_at(i),
            sort_key(r, Order::outputs_first()),
        ) by {
            if i < self.keys().len() - 1 {
                assert(key_lt(self.sort_key_at(i), self.sort_key_at(self.keys().len() - 1)));
            }
        }
        r
    }

    /// The key of exactly the size (num_inputs, num_outputs), if the set holds one.
    pub fn key_for_size(&self, num_inputs: usize, num_outputs: usize) -> (r: Option<&K>)
        requires
            self.wf(),
        ensures
            r.is_some() <==> self.sizes().contains((num_inputs, num_outputs)),
            r.is_some() ==> exists|i: int|
                0 <= i < self.keys().len() && self.keys()[i] == *r.unwrap() && #[trigger] self.sizes()[i] == (num_inputs, num_outputs),
    {
        let mut i: usize = 0;
        while i < self.keys.len()
            invariant
                0 <= i <= self.keys().len(),
                forall|j: int| 0 <= j < i ==> #[trigger] self.sizes()[j] != (num_inputs, num_outputs),
            decreases self.keys().len() - i,
        {
            let k = &self.keys[i];
            if k.num_inputs() == num_inputs && k.num_outputs() == num_outputs {
                assert(self.sizes()[i as int] == (num_inputs, num_outputs));
                return Some(k);
            }
            i = i + 1;
        }
        None
    }

    /// The key of exactly the size (num_inputs, num_outputs), if the set holds one.
    pub fn exact_fit_key(&self, num_inputs: usize, num_outputs: usize) -> (r: Option<&K>)
        requires
            self.wf(),
        ensures
            r.is_some() <==> self.sizes().contains((num_inputs, num_outputs)),
            r.is_some() ==> exists|i: int|
                0 <= i < self.keys().len() && self.keys()[i] == *r.unwrap() && #[trigger] self.sizes()[i] == (num_inputs, num_outputs),
    {
        self.key_for_size(num_inputs, num_outputs)
    }

    /// The key of least sort key among those whose sort key is at least that
    /// of (num_inputs, num_outputs), with its size. When there is none, the
    /// error holds the largest size available.
    pub fn best_fit_key(&self, num_inputs: usize, num_outputs: usize) -> (r: Result<(usize, usize, &K), (usize, usize)>)
        requires
            self.wf(),
        ensures
            r.is_ok() <==> exists|i: int|
                0 <= i < self.keys().len() && key_le(sort_key((num_inputs, num_outputs), Order::outputs_first()), #[trigger] self.sort_key_at(i)),
            r.is_ok() ==> exists|i: int|
                0 <= i < self.keys().len() && *r.unwrap().2 == self.keys()[i] && (r.unwrap().0, r.unwrap().1) == self.sizes()[i]
                    && key_le(sort_key((num_inputs, num_outputs), Order::outputs_first()), #[trigger] self.sort_key_at(i))
                    && (forall|j: int| 0 <= j < self.keys().len() && key_le(sort_key((num_inputs, num_outputs), Order::outputs_first()), #[trigger] self.sort_key_at(j)) ==> key_le(self.sort_key_at(i), self.sort_key_at(j))),
            r.is_err() ==> r == Err::<(usize, usize, &K), (usize, usize)>(self.sizes().last()),
    {
        let req = sort_key_of::<Order>(num_inputs, num_outputs);
        let mut i: usize = 0;
        while i < self.keys.len()
            invariant
                0 <= i <= self.keys().len(),
                req == sort_key((num_inputs, num_outputs), Order::outputs_first()),
                self.wf(),
                forall|j: int| 0 <= j < i ==> key_lt(#[trigger] self.sort_key_at(j), req),
            decreases self.keys().len() - i,
        {
            let k = &self.keys[i];
            let sk = sort_key_of::<Order>(k.num_inputs(), k.num_outputs());
            if !key_lt_exec(sk, req) {
                assert(sk == self.sort_key_at(i as int));
                assert forall|j: int| 0 <= j < self.keys().len() && key_le(req, #[trigger] self.sort_key_at(j)) implies key_le(self.sort_key_at(i as int), self.sort_key_at(j)) by {
                    if j < i {
                        assert(key_lt(self.sort_key_at(j), req));
                    } else if j > i {
                        assert(key_lt(self.sort_key_at(i as int), self.sort_key_at(j)));
                    }
                }
                return Ok((k.num_inputs(), k.num_outputs(), k));
            }
            i = i + 1;
        }
        Err(self.max_size())
    }

    /// The keys, in increasing order of their sort keys.
    pub fn iter(&self) -> (r: &[K])
        ensures
            r@ == self.keys(),
    {
        self.keys.as_slice()
    }

    /// The canonical bytes of the set: the number of keys, then each key's
    /// sort key and bytes, in order.
    pub open spec fn encoding(&self) -> Seq<u8> {
        key_set_encoding(self.keys(), Order::outputs_first())
    }

    /// Appends the canonical bytes of the set.
    pub fn append_encoding(&self, buf: &mut Vec<u8>)
        ensures
            final(buf)@ == old(buf)@ + self.encoding(),
    {
        append_u64(buf, self.keys.len() as u64);
        let ghost start = buf@;
        let ghost of = Order::outputs_first();
        let mut i: usize = 0;
        while i < self.keys.len()
            invariant
                0 <= i <= self.keys().len(),
                of == Order::outputs_first(),
                buf@ == start + concat(key_entries(self.keys().subrange(0, i as int), of)),
            decreases self.keys().len() - i,
        {
            let k = &self.keys[i];
            let sk = sort_key_of::<Order>(k.num_inputs(), k.num_outputs());
            append_u64(buf, sk.0 as u64);
            append_u64(buf, sk.1 as u64);
            k.append_encoding(buf);
            proof {
                let e = key_entries(self.keys().subrange(0, i as int), of);
                crate::commit::lemma_concat_push(e, key_entry(self.keys()[i as int], of));
                assert(key_entries(self.keys().subrange(0, i + 1), of) =~= e.push(key_entry(self.keys()[i as int], of)));
                assert(buf@ =~= start + concat(e) + key_entry(self.keys()[i as int], of));
            }
            i = i + 1;
        }
        assert(self.keys().subrange(0, self.keys().len() as int) =~= self.keys());
    }

    /// A copy of the set, with keys of the same sizes and bytes.
    pub fn clone_set(&self) -> (r: Self)
        ensures
            self.wf() ==> r.wf(),
            r.sizes() == self.sizes(),
            r.encoding() == self.encoding(),
    {
        let mut v: Vec<K> = Vec::new();
        let mut i: usize = 0;
        while i < self.keys.len()
            invariant
                0 <= i <= self.keys().len(),
                v@.len() == i,
                forall|j: int| 0 <= j < i ==> (#[trigger] v@[j]).size() == self.keys()[j].size() && v@[j].encoding() == self.keys()[j].encoding(),
            decreases self.keys().len() - i,
        {
            v.push(self.keys[i].clone_key());
            i = i + 1;
        }
        let r = KeySet { keys: v, order: PhantomData };
        assert(r.sizes() =~= self.sizes());
        assert(key_entries(r.keys(), Order::outputs_first()) =~= key_entries(self.keys(), Order::outputs_first()));
        proof {
            assert forall|i: int, j: int| self.wf() && 0 <= i < j < r.keys().len() implies key_lt(
                #[trigger] r.sort_key_at(i),
                #[trigger] r.sort_key_at(j),
            ) by {
                assert(r.sort_key_at(i) == self.sort_key_at(i));
                assert(r.sort_key_at(j) == self.sort_key_at(j));
            }
        }
        r
    }
}

/// The canonical bytes of one entry of a key set.
pub open spec fn key_entry<K: SizedKey>(k: K, outputs_first: bool) -> Seq<u8> {
    enc_u64(sort_key(k.size(), outputs_first).0 as u64) + enc_u64(sort_key(k.size(), outputs_first).1 as u64) + k.encoding()
}

pub open spec fn key_entries<K: SizedKey>(keys: Seq<K>, outputs_first: bool) -> Seq<Seq<u8>> {
    keys.map_values(|k: K| key_entry(k, outputs_first))
}

/// The canonical bytes of a key set holding `keys` in this order.
pub open spec fn key_set_encoding<K: SizedKey>(keys: Seq<K>, outputs_first: bool) -> Seq<u8> {
    enc_u64(keys.len() as u64) + concat(key_entries(keys, outputs_first))
}

/// A verifying key of the cryptosystem: its kind, its arity and its canonical bytes.
/// A mint key serves one input and two outputs.
#[derive(Debug, PartialEq, Eq)]
pub enum TransactionVerifyingKey {
    Mint { bytes: Vec<u8> },
    Transfer { num_inputs: usize, num_outputs: usize, bytes: Vec<u8> },
    Freeze { num_inputs: usize, num_outputs: usize, bytes: Vec<u8> },
}

impl SizedKey for TransactionVerifyingKey {
    open spec fn size(&self) -> (usize, usize) {
        match self {
            TransactionVerifyingKey::Mint { .. } => (1, 2),
            TransactionVerifyingKey::Transfer { num_inputs, num_outputs, .. } => (*num_inputs, *num_outputs),
            TransactionVerifyingKey::Freeze { num_inputs, num_outputs, .. } => (*num_inputs, *num_outputs),
        }
    }

    open spec fn encoding(&self) -> Seq<u8> {
        match self {
            TransactionVerifyingKey::Mint { bytes } => enc_u64(0) + enc_var(bytes@),
            TransactionVerifyingKey::Transfer { num_inputs, num_outputs, bytes } => enc_u64(1) + enc_u64(*num_inputs as u64) + enc_u64(*num_outputs as u64) + enc_var(bytes@),
            TransactionVerifyingKey::Freeze { num_inputs, num_outputs, bytes } => enc_u64(2) + enc_u64(*num_inputs as u64) + enc_u64(*num_outputs as u64) + enc_var(bytes@),
        }
    }

    fn num_inputs(&self) -> (r: usize) {
        match self {
            TransactionVerifyingKey::Mint { .. } => 1,
            TransactionVerifyingKey::Transfer { num_inputs, .. } => *num_inputs,
            TransactionVerifyingKey::Freeze { num_inputs, .. } => *num_inputs,
        }
    }

    fn num_outputs(&self) -> (r: usize) {
        match self {
            TransactionVerifyingKey::Mint { .. } => 2,
            TransactionVerifyingKey::Transfer { num_outputs, .. } => *num_outputs,
            TransactionVerifyingKey::Freeze { num_outputs, .. } => *num_outputs,
        }
    }

    fn clone_key(&self) -> (r: Self) {
        match self {
            TransactionVerifyingKey::Mint { bytes } => TransactionVerifyingKey::Mint { bytes: bytes.clone() },
            TransactionVerifyingKey::Transfer { num_inputs, num_outputs, bytes } => TransactionVerifyingKey::Transfer { num_inputs: *num_inputs, num_outputs: *num_outputs, bytes: bytes.clone() },
            TransactionVerifyingKey::Freeze { num_inputs, num_outputs, bytes } => TransactionVerifyingKey::Freeze { num_inputs: *num_inputs, num_outputs: *num_outputs, bytes: bytes.clone() },
        }
    }

    fn append_encoding(&self, buf: &mut Vec<u8>) {
        let ghost start = buf@;
        match self {
            TransactionVerifyingKey::Mint { bytes } => {
                append_u64(buf, 0);
                append_u64(buf, bytes.len() as u64);
                append_bytes(buf, bytes.as_slice());
                assert(buf@ =~= start + (enc_u64(0) + enc_var(bytes@)));
            },
            TransactionVerifyingKey::Transfer { num_inputs, num_outputs, bytes } => {
                append_u64(buf, 1);
                append_u64(buf, *num_inputs as u64);
                append_u64(buf, *num_outputs as u64);
                append_u64(buf, bytes.len() as u64);
                append_bytes(buf, bytes.as_slice());
                assert(buf@ =~= start + (enc_u64(1) + enc_u64(*num_inputs as u64) + enc_u64(*num_outputs as u64) + enc_var(bytes@)));
            },
            TransactionVerifyingKey::Freeze { num_inputs, num_outputs, bytes } => {
                append_u64(buf, 2);
                append_u64(buf, *num_inputs as u64);
                append_u64(buf, *num_outputs as u64);
                append_u64(buf, bytes.len() as u64);
                append_bytes(buf, bytes.as_slice());
                assert(buf@ =~= start + (enc_u64(2) + enc_u64(*num_inputs as u64) + enc_u64(*num_outputs as u64) + enc_var(bytes@)));
            },
        }
    }
}

/// A proving key of the cryptosystem: its arity and its canonical bytes.
#[derive(Debug, PartialEq, Eq)]
pub struct ProvingKey {
    pub num_inputs: usize,
    pub num_outputs: usize,
    pub bytes: Vec<u8>,
}

impl SizedKey for ProvingKey {
    open spec fn size(&self) -> (usize, usize) {
        (self.num_inputs, self.num_outputs)
    }

    open spec fn encoding(&self) -> Seq<u8> {
        enc_u64(self.num_inputs as u64) + enc_u64(self.num_outputs as u64) + enc_var(self.bytes@)
    }

    fn num_inputs(&self) -> (r: usize) {
        self.num_inputs
    }

    fn num_outputs(&self) -> (r: usize) {
        self.num_outputs
    }

    fn clone_key(&self) -> (r: Self) {
        ProvingKey { num_inputs: self.num_inputs, num_outputs: self.num_outputs, bytes: self.bytes.clone() }
    }

    fn append_encoding(&self, buf: &mut Vec<u8>) {
        let ghost start = buf@;
        append_u64(buf, self.num_inputs as u64);
        append_u64(buf, self.num_outputs as u64);
        append_u64(buf, self.bytes.len() as u64);
        append_bytes(buf, self.bytes.as_slice());
        assert(buf@ =~= start + self.encoding());
    }
}

/// The proving keys: one for mints, and a key set each for transfers and freezes.
#[derive(Debug)]
pub struct ProverKeySet<Order: KeyOrder = OrderByInputs> {
    pub mint: ProvingKey,
    pub xfr: KeySet<ProvingKey, Order>,
    pub freeze: KeySet<ProvingKey, Order>,
}

/// The verifying keys: one for mints, and a key set each for transfers and freezes.
#[derive(Debug)]
pub struct VerifierKeySet<Order: KeyOrder = OrderByInputs> {
    pub mint: TransactionVerifyingKey,
    pub xfr: KeySet<TransactionVerifyingKey, Order>,
    pub freeze: KeySet<TransactionVerifyingKey, Order>,
}

impl<Order: KeyOrder> VerifierKeySet<Order> {
    pub open spec fn wf(&self) -> bool {
        self.xfr.wf() && self.freeze.wf()
    }

    /// The canonical bytes of the three parts, in order.
    pub open spec fn encoding(&self) -> Seq<u8> {
        self.mint.encoding() + self.xfr.encoding() + self.freeze.encoding()
    }

    /// The canonical bytes of the key set.
    pub fn serialize(&self) -> (r: Vec<u8>)
        ensures
            r@ == self.encoding(),
    {
        let mut buf: Vec<u8> = Vec::new();
        self.mint.append_encoding(&mut buf);
        self.xfr.append_encoding(&mut buf);
        self.freeze.append_encoding(&mut buf);
        assert(buf@ =~= self.encoding());
        buf
    }

    /// The commitment of the key set: a digest over its canonical bytes.
    pub fn commit(&self) -> (r: Digest)
        ensures
            r.bytes() == keccak256(verifier_keys_encoding(self.encoding())),
    {
        let bytes = self.serialize();
        CommitmentBuilder::new("VerifCRS Comm").var_size_bytes(bytes.as_slice()).finalize()
    }

    /// A copy of the key set.
    pub fn clone_keys(&self) -> (r: VerifierKeySet<Order>)
        ensures
            self.wf() ==> r.wf(),
            r.mint.size() == self.mint.size(),
            r.xfr.sizes() == self.xfr.sizes(),
            r.freeze.sizes() == self.freeze.sizes(),
            r.encoding() == self.encoding(),
    {
        VerifierKeySet { mint: self.mint.clone_key(), xfr: self.xfr.clone_set(), freeze: self.freeze.clone_set() }
    }
}

/// The bytes that the commitment of a verifier key set digests.
pub open spec fn verifier_keys_encoding(enc: Seq<u8>) -> Seq<u8> {
    crate::commit::enc_str("VerifCRS Comm") + enc_var(enc)
}

} // verus!
