//! Byte-lexicographic ordering of parameters and a verified insertion
//! sort. The provider's signature contract demands that the parameter set
//! be serialized in ascending key order, so the sort's contract — sorted
//! output, same parameters — and the uniqueness of sorted sequences are
//! proved here once and reused by the request builder.

use vstd::prelude::*;
use vstd::relations::sorted_by;
use vstd::seq_lib::group_to_multiset_ensures;

verus! {

/// Byte-lexicographic `<=` on byte strings: a proper prefix precedes its
/// extensions, otherwise the first differing byte decides.
pub open spec fn lex_le(a: Seq<u8>, b: Seq<u8>) -> bool
    decreases a.len(),
{
    if a.len() == 0 {
        true
    } else if b.len() == 0 {
        false
    } else if a.first() < b.first() {
        true
    } else if a.first() > b.first() {
        false
    } else {
        lex_le(a.drop_first(), b.drop_first())
    }
}

/// Strict byte-lexicographic order.
pub open spec fn lex_lt(a: Seq<u8>, b: Seq<u8>) -> bool {
    lex_le(a, b) && a != b
}

pub proof fn lemma_lex_le_refl(a: Seq<u8>)
    ensures
        lex_le(a, a),
    decreases a.len(),
{
    if a.len() > 0 {
        lemma_lex_le_refl(a.drop_first());
    }
}

pub proof fn lemma_lex_le_antisym(a: Seq<u8>, b: Seq<u8>)
    requires
        lex_le(a, b),
        lex_le(b, a),
    ensures
        a == b,
    decreases a.len(),
{
    if a.len() == 0 {
        assert(b.len() == 0);
        assert(a =~= b);
    } else {
        assert(b.len() > 0);
        assert(a.first() == b.first());
        lemma_lex_le_antisym(a.drop_first(), b.drop_first());
        assert(a =~= b) by {
            assert(a.drop_first().len() == a.len() - 1);
            assert(b.drop_first().len() == b.len() - 1);
            assert(a.len() == b.len());
            assert(forall|i: int|
                1 <= i < a.len() ==> a[i] == a.drop_first()[i - 1] && b[i] == b.drop_first()[i
                    - 1]);
        }
    }
}

pub proof fn lemma_lex_le_total(a: Seq<u8>, b: Seq<u8>)
    ensures
        lex_le(a, b) || lex_le(b, a),
    decreases a.len(),
{
    if a.len() > 0 && b.len() > 0 && a.first() == b.first() {
        lemma_lex_le_total(a.drop_first(), b.drop_first());
    }
}

pub proof fn lemma_lex_le_trans(a: Seq<u8>, b: Seq<u8>, c: Seq<u8>)
    requires
        lex_le(a, b),
        lex_le(b, c),
    ensures
        lex_le(a, c),
    decreases a.len(),
{
    if a.len() > 0 {
        assert(b.len() > 0);
        assert(c.len() > 0);
        if a.first() == b.first() && b.first() == c.first() {
            lemma_lex_le_trans(a.drop_first(), b.drop_first(), c.drop_first());
        }
    }
}

/// Order on `key=value` pairs: by key, with the value breaking ties.
pub open spec fn pair_le(a: (Seq<u8>, Seq<u8>), b: (Seq<u8>, Seq<u8>)) -> bool {
    if a.0 == b.0 {
        lex_le(a.1, b.1)
    } else {
        lex_le(a.0, b.0)
    }
}

/// The pair order as a function value, so that every use names the same
/// relation.
pub open spec fn pair_le_fn() -> spec_fn((Seq<u8>, Seq<u8>), (Seq<u8>, Seq<u8>)) -> bool {
    |x: (Seq<u8>, Seq<u8>), y: (Seq<u8>, Seq<u8>)| pair_le(x, y)
}

pub proof fn lemma_pair_le_refl(x: (Seq<u8>, Seq<u8>))
    ensures
        pair_le(x, x),
{
    lemma_lex_le_refl(x.1);
}

pub proof fn lemma_pair_le_antisym(x: (Seq<u8>, Seq<u8>), y: (Seq<u8>, Seq<u8>))
    requires
        pair_le(x, y),
        pair_le(y, x),
    ensures
        x == y,
{
    if x.0 == y.0 {
        lemma_lex_le_antisym(x.1, y.1);
        assert(x =~= y);
    } else {
        lemma_lex_le_antisym(x.0, y.0);
    }
}

pub proof fn lemma_pair_le_total(x: (Seq<u8>, Seq<u8>), y: (Seq<u8>, Seq<u8>))
    ensures
        pair_le(x, y) || pair_le(y, x),
{
    if x.0 == y.0 {
        lemma_lex_le_total(x.1, y.1);
    } else {
        lemma_lex_le_total(x.0, y.0);
    }
}

pub proof fn lemma_pair_le_trans(x: (Seq<u8>, Seq<u8>), y: (Seq<u8>, Seq<u8>), z: (
    Seq<u8>,
    Seq<u8>,
))
    requires
        pair_le(x, y),
        pair_le(y, z),
    ensures
        pair_le(x, z),
{
    if x.0 == y.0 && y.0 == z.0 {
        lemma_lex_le_trans(x.1, y.1, z.1);
    } else if x.0 == y.0 {
        assert(lex_le(x.0, z.0));
    } else if y.0 == z.0 {
        assert(lex_le(x.0, z.0));
    } else {
        lemma_lex_le_trans(x.0, y.0, z.0);
        if x.0 == z.0 {
            lemma_lex_le_antisym(x.0, y.0);
        }
    }
}

/// The pair order is a total ordering: reflexive, antisymmetric,
/// transitive and strongly connected.
pub proof fn lemma_pair_le_total_ordering()
    ensures
        vstd::relations::total_ordering(pair_le_fn()),
{
    let leq = pair_le_fn();
    assert forall|x: (Seq<u8>, Seq<u8>)| #[trigger] leq(x, x) by {
        lemma_pair_le_refl(x);
    }
    assert forall|x: (Seq<u8>, Seq<u8>), y: (Seq<u8>, Seq<u8>)|
        #[trigger] leq(x, y) && #[trigger] leq(y, x) implies x == y by {
        lemma_pair_le_antisym(x, y);
    }
    assert forall|x: (Seq<u8>, Seq<u8>), y: (Seq<u8>, Seq<u8>), z: (Seq<u8>, Seq<u8>)|
        #[trigger] leq(x, y) && #[trigger] leq(y, z) implies leq(x, z) by {
        lemma_pair_le_trans(x, y, z);
    }
    assert forall|x: (Seq<u8>, Seq<u8>), y: (Seq<u8>, Seq<u8>)|
        #[trigger] leq(x, y) || #[trigger] leq(y, x) by {
        lemma_pair_le_total(x, y);
    }
}

/// One `key=value` parameter, both sides as raw bytes.
pub struct Param {
    pub key: Vec<u8>,
    pub value: Vec<u8>,
}

impl View for Param {
    type V = (Seq<u8>, Seq<u8>);

    open spec fn view(&self) -> (Seq<u8>, Seq<u8>) {
        (self.key@, self.value@)
    }
}

/// The mathematical value of a parameter list: a sequence of byte-string
/// pairs.
pub open spec fn params_view(s: Seq<Param>) -> Seq<(Seq<u8>, Seq<u8>)> {
    s.map_values(|p: Param| p@)
}

/// Executable byte-lexicographic `<=`.
pub fn bytes_le(a: &Vec<u8>, b: &Vec<u8>) -> (r: bool)
    ensures
        r == lex_le(a@, b@),
{
    let an = a.len();
    let bn = b.len();
    let mut i: usize = 0;
    proof {
        assert(a@.skip(0) =~= a@);
        assert(b@.skip(0) =~= b@);
    }
    while i < an && i < bn
        invariant
            an == a@.len(),
            bn == b@.len(),
            i <= an,
            i <= bn,
            lex_le(a@, b@) == lex_le(a@.skip(i as int), b@.skip(i as int)),
            lex_le(b@, a@) == lex_le(b@.skip(i as int), a@.skip(i as int)),
        decreases an - i,
    {
        let x = a[i];
        let y = b[i];
        proof {
            assert(a@.skip(i as int).first() == a@[i as int]);
            assert(b@.skip(i as int).first() == b@[i as int]);
        }
        if x < y {
            return true;
        }
        if x > y {
            return false;
        }
        proof {
            assert(a@.skip(i as int).drop_first() =~= a@.skip(i + 1));
            assert(b@.skip(i as int).drop_first() =~= b@.skip(i + 1));
        }
        i += 1;
    }
    proof {
        if i == an {
            assert(a@.skip(i as int) =~= Seq::<u8>::empty());
        } else {
            assert(b@.skip(i as int) =~= Seq::<u8>::empty());
            assert(a@.skip(i as int).len() > 0);
        }
    }
    i == an
}

/// Executable pair order.
pub fn param_le(a: &Param, b: &Param) -> (r: bool)
    ensures
        r == pair_le(a@, b@),
{
    let kab = bytes_le(&a.key, &b.key);
    let kba = bytes_le(&b.key, &a.key);
    if kab && kba {
        proof {
            lemma_lex_le_antisym(a.key@, b.key@);
        }
        bytes_le(&a.value, &b.value)
    } else {
        proof {
            if a.key@ == b.key@ {
                lemma_lex_le_refl(a.key@);
            }
        }
        kab
    }
}

/// Inserting an element into a sequence adds it to the multiset.
proof fn lemma_insert_to_multiset(s: Seq<(Seq<u8>, Seq<u8>)>, j: int, x: (Seq<u8>, Seq<u8>))
    requires
        0 <= j <= s.len(),
    ensures
        s.insert(j, x).to_multiset() == s.to_multiset().insert(x),
{
    broadcast use group_to_multiset_ensures;

    let t = s.insert(j, x);
    t.to_multiset_ensures();
    s.to_multiset_ensures();
    assert(t.remove(j) =~= s);
    assert(t[j] == x);
    assert(t.contains(x));
    assert(t.to_multiset().count(x) > 0);
    assert(s.to_multiset() == t.to_multiset().remove(x));
    assert(t.to_multiset() =~= s.to_multiset().insert(x));
}

/// Where to place `p` in `out` so that everything before it is `<=` it.
fn find_insert_pos(out: &Vec<Param>, p: &Param) -> (j: usize)
    ensures
        j <= out@.len(),
        forall|k: int| 0 <= k < j ==> pair_le(#[trigger] params_view(out@)[k], p@),
        j < out@.len() ==> !pair_le(params_view(out@)[j as int], p@),
{
    let n = out.len();
    let mut j: usize = 0;
    while j < n
        invariant
            n == out@.len(),
            j <= n,
            forall|k: int| 0 <= k < j ==> pair_le(#[trigger] params_view(out@)[k], p@),
        decreases n - j,
    {
        let c = param_le(&out[j], p);
        if !c {
            return j;
        }
        j += 1;
    }
    j
}

/// Sorts the parameters by key (values breaking ties); the result holds
/// exactly the same parameters. This is the ordering step the provider's
/// signature contract demands: regardless of the order the parameters
/// arrive in, the output is ascending.
pub fn sort_params(input: Vec<Param>) -> (r: Vec<Param>)
    ensures
        sorted_by(params_view(r@), pair_le_fn()),
        params_view(r@).to_multiset() == params_view(input@).to_multiset(),
{
    broadcast use group_to_multiset_ensures;

    let mut rest = input;
    let mut out: Vec<Param> = Vec::new();
    proof {
        assert(params_view(out@) =~= Seq::<(Seq<u8>, Seq<u8>)>::empty());
        assert(params_view(out@).to_multiset().add(params_view(rest@).to_multiset()) =~= params_view(
            rest@,
        ).to_multiset());
    }
    while rest.len() > 0
        invariant
            sorted_by(params_view(out@), pair_le_fn()),
            params_view(out@).to_multiset().add(params_view(rest@).to_multiset()) == params_view(
                input@,
            ).to_multiset(),
        decreases rest@.len(),
    {
        let ghost old_out = params_view(out@);
        let ghost old_rest = params_view(rest@);
        let p = rest.remove(0);
        proof {
            old_rest.to_multiset_ensures();
            assert(params_view(rest@) =~= old_rest.remove(0));
            assert(old_rest[0] == p@);
            assert(old_rest.remove(0).to_multiset() == old_rest.to_multiset().remove(p@));
            assert(old_rest.to_multiset().count(p@) > 0) by {
                assert(old_rest.contains(p@));
            }
        }
        let j = find_insert_pos(&out, &p);
        out.insert(j, p);
        proof {
            assert(params_view(out@) =~= old_out.insert(j as int, p@));
            lemma_insert_to_multiset(old_out, j as int, p@);
            assert(params_view(out@).to_multiset().add(params_view(rest@).to_multiset())
                =~= old_out.to_multiset().add(old_rest.to_multiset()));
            let t = params_view(out@);
            assert forall|i1: int, i2: int| 0 <= i1 < i2 < t.len() implies pair_le_fn()(
                t[i1],
                t[i2],
            ) by {
                if i2 < j {
                    assert(t[i1] == old_out[i1] && t[i2] == old_out[i2]);
                    assert(pair_le_fn()(old_out[i1], old_out[i2]));
                } else if i1 > j {
                    assert(t[i1] == old_out[i1 - 1] && t[i2] == old_out[i2 - 1]);
                    assert(pair_le_fn()(old_out[i1 - 1], old_out[i2 - 1]));
                } else if i1 == j {
                    assert(t[i1] == p@ && t[i2] == old_out[i2 - 1]);
                    assert(j < old_out.len());
                    assert(!pair_le(old_out[j as int], p@));
                    lemma_pair_le_total(old_out[j as int], p@);
                    if i2 - 1 > j {
                        assert(pair_le_fn()(old_out[j as int], old_out[i2 - 1]));
                        lemma_pair_le_trans(p@, old_out[j as int], old_out[i2 - 1]);
                    }
                } else if i2 == j {
                    assert(t[i1] == old_out[i1] && t[i2] == p@);
                } else {
                    // i1 < j < i2
                    assert(t[i1] == old_out[i1] && t[i2] == old_out[i2 - 1]);
                    if i2 - 1 == j {
                        assert(j < old_out.len());
                        assert(!pair_le(old_out[j as int], p@));
                        lemma_pair_le_total(old_out[j as int], p@);
                        lemma_pair_le_trans(old_out[i1], p@, old_out[j as int]);
                    } else {
                        assert(pair_le_fn()(old_out[i1], old_out[i2 - 1]));
                    }
                }
            }
        }
    }
    proof {
        assert(params_view(rest@) =~= Seq::<(Seq<u8>, Seq<u8>)>::empty());
        assert(params_view(out@).to_multiset().add(params_view(rest@).to_multiset())
            =~= params_view(out@).to_multiset());
    }
    out
}

/// Keys pairwise distinct in a sequence of pairs.
pub open spec fn distinct_keys(s: Seq<(Seq<u8>, Seq<u8>)>) -> bool {
    forall|i: int, j: int| 0 <= i < j < s.len() ==> s[i].0 != s[j].0
}

/// A sequence holding the same parameters as one with pairwise distinct
/// keys has pairwise distinct keys itself.
pub proof fn lemma_distinct_keys_preserved(a: Seq<(Seq<u8>, Seq<u8>)>, b: Seq<(Seq<u8>, Seq<u8>)>)
    requires
        a.to_multiset() == b.to_multiset(),
        distinct_keys(a),
    ensures
        distinct_keys(b),
{
    broadcast use vstd::multiset::group_multiset_axioms;

    a.to_multiset_ensures();
    b.to_multiset_ensures();
    assert forall|i: int, j: int| 0 <= i < j < b.len() implies b[i].0 != b[j].0 by {
        if b[i].0 == b[j].0 {
            if b[i] == b[j] {
                let br = b.remove(j);
                br.to_multiset_ensures();
                assert(br.to_multiset() == b.to_multiset().remove(b[j]));
                assert(br[i] == b[i]);
                assert(br.contains(b[j]));
                assert(br.to_multiset().count(b[j]) > 0);
                assert(a.to_multiset().count(b[j]) >= 2);
                assert(a.to_multiset().count(b[j]) > 0);
                assert(a.contains(b[j]));
                let k = choose|k: int| 0 <= k < a.len() && a[k] == b[j];
                let ar = a.remove(k);
                ar.to_multiset_ensures();
                assert(ar.to_multiset() == a.to_multiset().remove(a[k]));
                assert(ar.to_multiset().count(b[j]) > 0);
                assert(ar.contains(b[j]));
                let l = choose|l: int| 0 <= l < ar.len() && ar[l] == b[j];
                if l < k {
                    assert(ar[l] == a[l]);
                    assert(a[l].0 == a[k].0);
                } else {
                    assert(ar[l] == a[l + 1]);
                    assert(a[k].0 == a[l + 1].0);
                }
                assert(false);
            } else {
                assert(b.contains(b[i]));
                assert(b.contains(b[j]));
                assert(a.to_multiset().count(b[i]) > 0);
                assert(a.to_multiset().count(b[j]) > 0);
                assert(a.contains(b[i]));
                assert(a.contains(b[j]));
                let k = choose|k: int| 0 <= k < a.len() && a[k] == b[i];
                let l = choose|l: int| 0 <= l < a.len() && a[l] == b[j];
                assert(k != l);
                assert(a[k].0 == a[l].0);
                assert(false);
            }
        }
    }
}

/// Two parameter sequences with the same parameters, each sorted by the
/// pair order, are the same sequence: the canonical order is unique.
pub proof fn lemma_sorted_multiset_unique(a: Seq<(Seq<u8>, Seq<u8>)>, b: Seq<(Seq<u8>, Seq<u8>)>)
    requires
        a.to_multiset() == b.to_multiset(),
        sorted_by(a, pair_le_fn()),
        sorted_by(b, pair_le_fn()),
    ensures
        a == b,
    decreases a.len(),
{
    broadcast use group_to_multiset_ensures;

    a.to_multiset_ensures();
    b.to_multiset_ensures();
    if a.len() == 0 {
        assert(b.to_multiset().len() == 0);
        assert(a =~= b);
    } else {
        assert(b.len() == a.len());
        assert(b.contains(a[0])) by {
            assert(a.contains(a[0]));
            assert(a.to_multiset().count(a[0]) > 0);
        }
        assert(a.contains(b[0])) by {
            assert(b.contains(b[0]));
            assert(b.to_multiset().count(b[0]) > 0);
        }
        let j = choose|j: int| 0 <= j < b.len() && b[j] == a[0];
        let i = choose|i: int| 0 <= i < a.len() && a[i] == b[0];
        if j > 0 {
            assert(pair_le_fn()(b[0], b[j]));
        } else {
            lemma_pair_le_refl(b[0]);
        }
        if i > 0 {
            assert(pair_le_fn()(a[0], a[i]));
        } else {
            lemma_pair_le_refl(a[0]);
        }
        assert(pair_le(b[0], a[0]));
        assert(pair_le(a[0], b[0]));
        lemma_pair_le_antisym(a[0], b[0]);
        assert(a.drop_first() =~= a.remove(0));
        assert(b.drop_first() =~= b.remove(0));
        assert(a.drop_first().to_multiset() == b.drop_first().to_multiset()) by {
            assert(a.remove(0).to_multiset() == a.to_multiset().remove(a[0]));
            assert(b.remove(0).to_multiset() == b.to_multiset().remove(b[0]));
        }
        assert(sorted_by(a.drop_first(), pair_le_fn())) by {
            assert(forall|i1: int, i2: int|
                0 <= i1 < i2 < a.drop_first().len() ==> a.drop_first()[i1] == a[i1 + 1]
                    && a.drop_first()[i2] == a[i2 + 1]);
        }
        assert(sorted_by(b.drop_first(), pair_le_fn())) by {
            assert(forall|i1: int, i2: int|
                0 <= i1 < i2 < b.drop_first().len() ==> b.drop_first()[i1] == b[i1 + 1]
                    && b.drop_first()[i2] == b[i2 + 1]);
        }
        lemma_sorted_multiset_unique(a.drop_first(), b.drop_first());
        assert(a =~= b) by {
            assert(forall|k: int|
                1 <= k < a.len() ==> a[k] == a.drop_first()[k - 1] && b[k] == b.drop_first()[k
                    - 1]);
        }
    }
}

} // verus!
