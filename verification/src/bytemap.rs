use vstd::prelude::*;
use vstd::string::StringSliceAdditionalSpecFns;

verus! {

/// Strict byte-wise lexicographic order on byte strings, the order that
/// the dictionary's keyed collections are kept in.
pub open spec fn lex_lt(a: Seq<u8>, b: Seq<u8>) -> bool
    decreases a.len(),
{
    if b.len() == 0 {
        false
    } else if a.len() == 0 {
        true
    } else if a[0] < b[0] {
        true
    } else if a[0] > b[0] {
        false
    } else {
        lex_lt(a.skip(1), b.skip(1))
    }
}

/// The order is asymmetric: `a` before `b` rules out `b` before `a` and
/// equality.
pub proof fn lemma_lex_lt_asymmetric(a: Seq<u8>, b: Seq<u8>)
    requires
        lex_lt(a, b),
    ensures
        !lex_lt(b, a),
        a != b,
    decreases a.len(),
{
    if a.len() > 0 && b.len() > 0 && a[0] == b[0] {
        lemma_lex_lt_asymmetric(a.skip(1), b.skip(1));
        assert(a != b) by {
            if a == b {
                assert(a.skip(1) =~= b.skip(1));
            }
        }
    }
}

/// If `a` and `b` agree before position `k`, and at `k` either `a` ends
/// or its byte is smaller, then `a` comes first.
pub proof fn lemma_lex_lt_from_diff(a: Seq<u8>, b: Seq<u8>, k: int)
    requires
        0 <= k <= a.len(),
        k <= b.len(),
        forall|j: int| 0 <= j < k ==> a[j] == b[j],
        k < b.len(),
        k == a.len() || a[k] < b[k],
    ensures
        lex_lt(a, b),
    decreases k,
{
    if k > 0 {
        lemma_lex_lt_from_diff(a.skip(1), b.skip(1), k - 1);
    }
}

/// Byte strings that agree at every position of both are equal.
pub proof fn lemma_bytes_eq(a: Seq<u8>, b: Seq<u8>)
    requires
        a.len() == b.len(),
        forall|j: int| 0 <= j < a.len() ==> a[j] == b[j],
    ensures
        a == b,
{
    assert(a =~= b);
}

/// Three-way comparison of byte strings in lexicographic order: `-1`,
/// `0` or `1` as `a` comes before, equals, or comes after `b`.
pub fn bytes_cmp(a: &[u8], b: &[u8]) -> (r: i8)
    ensures
        (r == -1i8) <==> lex_lt(a@, b@),
        (r == 0i8) <==> (a@ == b@),
        (r == 1i8) <==> lex_lt(b@, a@),
{
    let alen = a.len();
    let blen = b.len();
    let min = if alen < blen {
        alen
    } else {
        blen
    };
    let mut k: usize = 0;
    while k < min
        invariant
            0 <= k <= min,
            min == if a@.len() < b@.len() {
                a@.len()
            } else {
                b@.len()
            },
            alen == a@.len(),
            blen == b@.len(),
            forall|j: int| 0 <= j < k ==> a@[j] == b@[j],
        decreases min - k,
    {
        let ca = *vstd::slice::slice_index_get(a, k);
        let cb = *vstd::slice::slice_index_get(b, k);
        if ca < cb {
            proof {
                lemma_lex_lt_from_diff(a@, b@, k as int);
                lemma_lex_lt_asymmetric(a@, b@);
            }
            return -1;
        }
        if ca > cb {
            proof {
                lemma_lex_lt_from_diff(b@, a@, k as int);
                lemma_lex_lt_asymmetric(b@, a@);
            }
            return 1;
        }
        k = k + 1;
    }
    if alen == blen {
        proof {
            lemma_bytes_eq(a@, b@);
            if lex_lt(a@, b@) {
                lemma_lex_lt_asymmetric(a@, b@);
            }
        }
        0
    } else if alen < blen {
        proof {
            lemma_lex_lt_from_diff(a@, b@, alen as int);
            lemma_lex_lt_asymmetric(a@, b@);
        }
        -1
    } else {
        proof {
            lemma_lex_lt_from_diff(b@, a@, blen as int);
            lemma_lex_lt_asymmetric(b@, a@);
        }
        1
    }
}

/// Whether an association list is strictly sorted by key.
pub open spec fn entries_sorted<V>(s: Seq<(Seq<u8>, V)>) -> bool {
    forall|i: int, j: int| 0 <= i < j < s.len() ==> lex_lt(#[trigger] s[i].0, #[trigger] s[j].0)
}

/// Insertion into a sorted association list: before the first larger key,
/// replacing an equal key.
pub open spec fn spec_insert<V>(s: Seq<(Seq<u8>, V)>, k: Seq<u8>, v: V) -> Seq<(Seq<u8>, V)>
    decreases s.len(),
{
    if s.len() == 0 {
        seq![(k, v)]
    } else if lex_lt(k, s[0].0) {
        seq![(k, v)] + s
    } else if k == s[0].0 {
        seq![(k, v)] + s.skip(1)
    } else {
        seq![s[0]] + spec_insert(s.skip(1), k, v)
    }
}

/// The value stored under a key, scanning front to back.
pub open spec fn spec_find<V>(s: Seq<(Seq<u8>, V)>, k: Seq<u8>) -> Option<V>
    decreases s.len(),
{
    if s.len() == 0 {
        None
    } else if s[0].0 == k {
        Some(s[0].1)
    } else {
        spec_find(s.skip(1), k)
    }
}

/// A map from byte-string keys to values, kept sorted in lexicographic
/// key order, the order in which the data dictionary lists its entries.
pub struct ByteMap<V> {
    entries: Vec<(Vec<u8>, V)>,
}

impl<V> View for ByteMap<V> {
    type V = Seq<(Seq<u8>, V)>;

    closed spec fn view(&self) -> Seq<(Seq<u8>, V)> {
        self.entries@.map_values(|e: (Vec<u8>, V)| (e.0@, e.1))
    }
}

impl<V> ByteMap<V> {
    /// The entries are strictly sorted by key.
    pub open spec fn wf(&self) -> bool {
        entries_sorted(self@)
    }

    /// An empty map.
    pub fn new() -> (r: Self)
        ensures
            r@ == Seq::<(Seq<u8>, V)>::empty(),
            r.wf(),
    {
        let r = ByteMap { entries: Vec::new() };
        proof {
            assert(r@ =~= Seq::<(Seq<u8>, V)>::empty());
        }
        r
    }

    /// The number of entries.
    pub fn len(&self) -> (r: usize)
        ensures
            r == self@.len(),
    {
        self.entries.len()
    }

    /// The key of the entry at position `i`.
    pub fn key_at(&self, i: usize) -> (r: &[u8])
        requires
            i < self@.len(),
        ensures
            r@ == self@[i as int].0,
    {
        self.entries[i].0.as_slice()
    }

    /// The value of the entry at position `i`.
    pub fn value_at(&self, i: usize) -> (r: &V)
        requires
            i < self@.len(),
        ensures
            *r == self@[i as int].1,
    {
        &self.entries[i].1
    }

    /// Look up the value stored under `key`.
    pub fn get(&self, key: &[u8]) -> (r: Option<&V>)
        ensures
            match r {
                Some(v) => spec_find(self@, key@) == Some(*v),
                None => spec_find(self@, key@) is None,
            },
    {
        proof {
            assert(self@.skip(0) =~= self@);
        }
        let mut idx: usize = 0;
        loop
            invariant
                0 <= idx <= self@.len(),
                spec_find(self@, key@) == spec_find(self@.skip(idx as int), key@),
            decreases self@.len() - idx,
        {
            if idx >= self.entries.len() {
                return None;
            }
            let c = bytes_cmp(self.entries[idx].0.as_slice(), key);
            if c == 0 {
                proof {
                    assert(self@.skip(idx as int)[0] == self@[idx as int]);
                }
                return Some(&self.entries[idx].1);
            }
            proof {
                assert(self@.skip(idx as int)[0] == self@[idx as int]);
                assert(self@.skip(idx as int).skip(1) =~= self@.skip(idx + 1));
            }
            idx = idx + 1;
        }
    }

    /// Insert `value` under `key`, keeping the entries sorted; an entry
    /// already stored under `key` is replaced.
    pub fn insert(&mut self, key: Vec<u8>, value: V)
        requires
            old(self).wf(),
        ensures
            final(self)@ == spec_insert(old(self)@, key@, value),
            final(self).wf(),
    {
        let ghost s0 = self@;
        let ghost k = key@;
        proof {
            assert(s0.take(0) =~= Seq::<(Seq<u8>, V)>::empty());
            assert(s0.take(0) + spec_insert(s0.skip(0), k, value) =~= spec_insert(
                s0.skip(0),
                k,
                value,
            ));
            assert(s0.skip(0) =~= s0);
        }
        let mut p: usize = 0;
        loop
            invariant
                0 <= p <= s0.len(),
                self@ == s0,
                entries_sorted(s0),
                k == key@,
                forall|j: int| 0 <= j < p ==> lex_lt(#[trigger] s0[j].0, k),
                spec_insert(s0, k, value) == s0.take(p as int) + spec_insert(
                    s0.skip(p as int),
                    k,
                    value,
                ),
            ensures
                0 <= p <= s0.len(),
                self@ == s0,
                k == key@,
                forall|j: int| 0 <= j < p ==> lex_lt(#[trigger] s0[j].0, k),
                spec_insert(s0, k, value) == s0.take(p as int) + spec_insert(
                    s0.skip(p as int),
                    k,
                    value,
                ),
                p == s0.len() || !lex_lt(s0[p as int].0, k),
            decreases s0.len() - p,
        {
            if p >= self.entries.len() {
                break ;
            }
            let c = bytes_cmp(self.entries[p].0.as_slice(), key.as_slice());
            if c != -1 {
                break ;
            }
            proof {
                let tail = s0.skip(p as int);
                assert(tail[0] == s0[p as int]);
                assert(tail.skip(1) =~= s0.skip(p + 1));
                assert(spec_insert(tail, k, value) == seq![tail[0]] + spec_insert(
                    s0.skip(p + 1),
                    k,
                    value,
                ));
                assert(s0.take(p as int) + (seq![tail[0]] + spec_insert(s0.skip(p + 1), k, value))
                    =~= s0.take(p + 1) + spec_insert(s0.skip(p + 1), k, value));
            }
            p = p + 1;
        }
        let replace = if p < self.entries.len() {
            bytes_cmp(self.entries[p].0.as_slice(), key.as_slice()) == 0
        } else {
            false
        };
        if replace {
            proof {
                let tail = s0.skip(p as int);
                assert(tail[0] == s0[p as int]);
                assert(tail.skip(1) =~= s0.skip(p + 1));
            }
            self.entries[p] = (key, value);
            proof {
                assert(self@ =~= s0.take(p as int) + (seq![(k, value)] + s0.skip(p + 1)));
                lemma_sorted_splice(s0, k, value, p as int, s0.skip(p + 1), self@);
            }
        } else {
            self.entries.insert(p, (key, value));
            proof {
                let tail = s0.skip(p as int);
                if p < s0.len() {
                    assert(tail[0] == s0[p as int]);
                    lemma_lex_total(s0[p as int].0, k);
                    assert(lex_lt(k, s0[p as int].0));
                    assert(spec_insert(tail, k, value) == seq![(k, value)] + tail);
                } else {
                    assert(tail =~= Seq::<(Seq<u8>, V)>::empty());
                    assert(spec_insert(tail, k, value) =~= seq![(k, value)] + tail);
                }
                assert(self@ =~= s0.take(p as int) + (seq![(k, value)] + s0.skip(p as int)));
                lemma_sorted_splice(s0, k, value, p as int, s0.skip(p as int), self@);
            }
        }
    }
}

/// Removal from an association list: the first entry under the key
/// leaves, the rest keep their order.
pub open spec fn spec_remove<V>(s: Seq<(Seq<u8>, V)>, k: Seq<u8>) -> Seq<(Seq<u8>, V)>
    decreases s.len(),
{
    if s.len() == 0 {
        s
    } else if s[0].0 == k {
        s.skip(1)
    } else {
        seq![s[0]] + spec_remove(s.skip(1), k)
    }
}

impl<V> ByteMap<V> {
    /// Replace the value of the entry at position `i`, keeping its key.
    pub fn set_value_at(&mut self, i: usize, v: V)
        requires
            i < old(self)@.len(),
        ensures
            final(self)@ == old(self)@.update(i as int, (old(self)@[i as int].0, v)),
            old(self).wf() ==> final(self).wf(),
    {
        let mut key: Vec<u8> = Vec::new();
        key.extend_from_slice(self.entries[i].0.as_slice());
        proof {
            assert(key@ =~= self@[i as int].0);
        }
        self.entries[i] = (key, v);
        proof {
            assert(self@ =~= old(self)@.update(i as int, (old(self)@[i as int].0, v)));
            if old(self).wf() {
                assert forall|a: int, b: int| 0 <= a < b < self@.len() implies lex_lt(
                    #[trigger] self@[a].0,
                    #[trigger] self@[b].0,
                ) by {
                    assert(self@[a].0 == old(self)@[a].0);
                    assert(self@[b].0 == old(self)@[b].0);
                }
            }
        }
    }

    /// Borrow the value of the entry at position `i` mutably, keeping
    /// its key.
    pub fn value_at_mut(&mut self, i: usize) -> (r: &mut V)
        requires
            i < old(self)@.len(),
        ensures
            *r == old(self)@[i as int].1,
            final(self)@ == old(self)@.update(i as int, (old(self)@[i as int].0, *final(r))),
    {
        let e = vstd::std_specs::vec::vec_index_mut(&mut self.entries, i);
        &mut e.1
    }

    /// Remove the entry stored under `key`, if any.
    pub fn remove(&mut self, key: &[u8])
        requires
            old(self).wf(),
        ensures
            final(self)@ == spec_remove(old(self)@, key@),
            final(self).wf(),
    {
        let ghost s0 = self@;
        proof {
            assert(s0.take(0) =~= Seq::<(Seq<u8>, V)>::empty());
            assert(s0.skip(0) =~= s0);
            assert(s0.take(0) + spec_remove(s0.skip(0), key@) =~= spec_remove(s0, key@));
        }
        let mut i: usize = 0;
        while i < self.entries.len()
            invariant
                0 <= i <= s0.len(),
                s0 == old(self)@,
                self@ == s0,
                entries_sorted(s0),
                spec_remove(s0, key@) == s0.take(i as int) + spec_remove(s0.skip(i as int), key@),
            decreases s0.len() - i,
        {
            let c = bytes_cmp(self.entries[i].0.as_slice(), key);
            if c == 0 {
                proof {
                    assert(s0.skip(i as int)[0] == s0[i as int]);
                    assert(s0.skip(i as int).skip(1) =~= s0.skip(i + 1));
                }
                self.entries.remove(i);
                proof {
                    assert(self@ =~= s0.take(i as int) + s0.skip(i + 1));
                    assert(self@ =~= spec_remove(s0, key@));
                    assert forall|a: int, b: int| 0 <= a < b < self@.len() implies lex_lt(
                        #[trigger] self@[a].0,
                        #[trigger] self@[b].0,
                    ) by {
                        let aa = if a < i {
                            a
                        } else {
                            a + 1
                        };
                        let bb = if b < i {
                            b
                        } else {
                            b + 1
                        };
                        assert(self@[a].0 == s0[aa].0);
                        assert(self@[b].0 == s0[bb].0);
                    }
                }
                return ;
            }
            proof {
                assert(s0.skip(i as int)[0] == s0[i as int]);
                assert(s0.skip(i as int).skip(1) =~= s0.skip(i + 1));
                assert(s0.take(i as int) + (seq![s0[i as int]] + spec_remove(s0.skip(i + 1), key@))
                    =~= s0.take(i + 1) + spec_remove(s0.skip(i + 1), key@));
            }
            i = i + 1;
        }
        proof {
            assert(s0.skip(s0.len() as int) =~= Seq::<(Seq<u8>, V)>::empty());
            assert(s0.take(s0.len() as int) + spec_remove(s0.skip(s0.len() as int), key@) =~= s0);
        }
    }
}

/// An owned copy of a string literal's bytes.
pub fn owned_bytes(s: &str) -> (r: Vec<u8>)
    ensures
        r@ == s.spec_bytes(),
{
    let mut v: Vec<u8> = Vec::new();
    v.extend_from_slice(s.as_bytes());
    proof {
        assert(v@ =~= s.spec_bytes());
    }
    v
}

/// Lexicographic order is total: two keys are ordered one way or the
/// other, or equal.
pub proof fn lemma_lex_total(a: Seq<u8>, b: Seq<u8>)
    ensures
        lex_lt(a, b) || a == b || lex_lt(b, a),
    decreases a.len(),
{
    if a.len() > 0 && b.len() > 0 && a[0] == b[0] {
        lemma_lex_total(a.skip(1), b.skip(1));
        if a.skip(1) == b.skip(1) {
            assert forall|i: int| 0 <= i < a.len() implies a[i] == b[i] by {
                if i > 0 {
                    assert(a[i] == a.skip(1)[i - 1]);
                    assert(b[i] == b.skip(1)[i - 1]);
                }
            }
            assert(a =~= b);
        }
    }
}

/// In a sorted association list, no key before the first entry's key is
/// present.
pub proof fn lemma_sorted_find_none_if_lt<V>(s: Seq<(Seq<u8>, V)>, k: Seq<u8>)
    requires
        entries_sorted(s),
        s.len() == 0 || lex_lt(k, s[0].0),
    ensures
        spec_find(s, k) is None,
    decreases s.len(),
{
    if s.len() > 0 {
        lemma_lex_lt_asymmetric(k, s[0].0);
        assert(entries_sorted(s.skip(1))) by {
            assert forall|i: int, j: int| 0 <= i < j < s.skip(1).len() implies lex_lt(
                #[trigger] s.skip(1)[i].0,
                #[trigger] s.skip(1)[j].0,
            ) by {
                assert(s.skip(1)[i] == s[i + 1]);
                assert(s.skip(1)[j] == s[j + 1]);
            }
        }
        if s.len() > 1 {
            lemma_lex_lt_trans(k, s[0].0, s[1].0);
            assert(s.skip(1)[0] == s[1]);
        }
        lemma_sorted_find_none_if_lt(s.skip(1), k);
    }
}

/// Inserting into a sorted association list grows it by one entry for a
/// new key and keeps its length for a key already present.
pub proof fn lemma_spec_insert_len<V>(s: Seq<(Seq<u8>, V)>, k: Seq<u8>, v: V)
    requires
        entries_sorted(s),
    ensures
        spec_insert(s, k, v).len() == if spec_find(s, k) is Some {
            s.len() as int
        } else {
            s.len() as int + 1
        },
    decreases s.len(),
{
    if s.len() == 0 {
    } else if lex_lt(k, s[0].0) {
        lemma_sorted_find_none_if_lt(s, k);
    } else if k == s[0].0 {
    } else {
        assert(entries_sorted(s.skip(1))) by {
            assert forall|i: int, j: int| 0 <= i < j < s.skip(1).len() implies lex_lt(
                #[trigger] s.skip(1)[i].0,
                #[trigger] s.skip(1)[j].0,
            ) by {
                assert(s.skip(1)[i] == s[i + 1]);
                assert(s.skip(1)[j] == s[j + 1]);
            }
        }
        lemma_spec_insert_len(s.skip(1), k, v);
    }
}

/// Lexicographic order is transitive.
pub proof fn lemma_lex_lt_trans(a: Seq<u8>, b: Seq<u8>, c: Seq<u8>)
    requires
        lex_lt(a, b),
        lex_lt(b, c),
    ensures
        lex_lt(a, c),
    decreases a.len(),
{
    if a.len() > 0 && b.len() > 0 && c.len() > 0 && a[0] == b[0] && b[0] == c[0] {
        lemma_lex_lt_trans(a.skip(1), b.skip(1), c.skip(1));
    }
}

proof fn lemma_sorted_splice<V>(
    s0: Seq<(Seq<u8>, V)>,
    k: Seq<u8>,
    v: V,
    p: int,
    rest: Seq<(Seq<u8>, V)>,
    out: Seq<(Seq<u8>, V)>,
)
    requires
        entries_sorted(s0),
        0 <= p <= s0.len(),
        forall|j: int| 0 <= j < p ==> lex_lt(#[trigger] s0[j].0, k),
        rest == s0.skip(p) || (p < s0.len() && s0[p].0 == k && rest == s0.skip(p + 1)) || (p
            < s0.len() && lex_lt(k, s0[p].0) && rest == s0.skip(p)),
        rest == s0.skip(p) ==> p == s0.len() || lex_lt(k, s0[p].0),
        out == s0.take(p) + (seq![(k, v)] + rest),
    ensures
        entries_sorted(out),
{
    assert forall|i: int, j: int| 0 <= i < j < out.len() implies lex_lt(
        #[trigger] out[i].0,
        #[trigger] out[j].0,
    ) by {
        let off = if rest == s0.skip(p) {
            p
        } else {
            p + 1
        };
        if i < p {
            assert(out[i] == s0[i]);
        } else if i == p {
            assert(out[i] == (k, v));
        } else {
            assert(out[i] == rest[i - p - 1]);
        }
        if j < p {
            assert(out[j] == s0[j]);
        } else if j == p {
            assert(out[j] == (k, v));
        } else {
            assert(out[j] == rest[j - p - 1]);
        }
        if j > p {
            assert(rest[j - p - 1] == s0[j - p - 1 + off]);
            assert(j - p - 1 + off >= p);
        }
        if i > p {
            assert(rest[i - p - 1] == s0[i - p - 1 + off]);
        }
        if i < p && j == p {
        } else if i == p && j > p {
            let jj = j - p - 1 + off;
            if jj == p {
            } else {
                assert(lex_lt(s0[p].0, s0[jj].0));
                if rest == s0.skip(p) && p < s0.len() {
                    lemma_lex_lt_trans(k, s0[p].0, s0[jj].0);
                } else if p < s0.len() && s0[p].0 == k {
                } else {
                    lemma_lex_lt_trans(k, s0[p].0, s0[jj].0);
                }
            }
        } else if i < p && j > p {
            let jj = j - p - 1 + off;
            if jj == i {
            } else {
                assert(lex_lt(s0[i].0, s0[jj].0));
            }
        }
    }
}

} // verus!
