//! Package identities and the order in which they are kept.
//!
//! An identity is an opaque string. Identities are ordered as Rust orders
//! strings: lexicographically by the bytes of their UTF-8 encoding.

use vstd::prelude::*;
use vstd::string::*;
use vstd::utf8::*;

verus! {

/// The identity of a package: an opaque string, unique within a graph.
#[derive(Debug, PartialEq, Eq, Hash)]
pub struct PackageId {
    pub repr: String,
}

impl View for PackageId {
    type V = Seq<char>;

    open spec fn view(&self) -> Seq<char> {
        self.repr@
    }
}

impl DeepView for PackageId {
    type V = Seq<char>;

    open spec fn deep_view(&self) -> Seq<char> {
        self.repr@
    }
}

impl Clone for PackageId {
    fn clone(&self) -> (r: PackageId)
        ensures
            r@ == self@,
    {
        PackageId { repr: self.repr.clone() }
    }
}

impl PackageId {
    pub fn new(repr: &str) -> (r: PackageId)
        ensures
            r@ == repr@,
    {
        PackageId { repr: repr.to_owned() }
    }

    pub fn as_str(&self) -> (r: &str)
        ensures
            r@ == self@,
    {
        self.repr.as_str()
    }
}

/// Lexicographic "strictly before" on byte strings: at the first position
/// where the two differ the smaller byte decides, and a proper prefix comes
/// before every extension of it.
pub open spec fn bytes_before(a: Seq<u8>, b: Seq<u8>) -> bool
    decreases a.len(),
{
    if b.len() == 0 {
        false
    } else if a.len() == 0 {
        true
    } else if a[0] != b[0] {
        a[0] < b[0]
    } else {
        bytes_before(a.drop_first(), b.drop_first())
    }
}

/// The order of identities: the byte order of their UTF-8 encodings.
pub open spec fn id_before(a: Seq<char>, b: Seq<char>) -> bool {
    bytes_before(encode_utf8(a), encode_utf8(b))
}

/// A sequence of identities is strictly increasing.
pub open spec fn strictly_increasing(ids: Seq<Seq<char>>) -> bool {
    forall|i: int, j: int| 0 <= i < j < ids.len() ==> id_before(#[trigger] ids[i], #[trigger] ids[j])
}

pub proof fn lemma_bytes_before_irreflexive(a: Seq<u8>)
    ensures
        !bytes_before(a, a),
    decreases a.len(),
{
    if a.len() > 0 {
        lemma_bytes_before_irreflexive(a.drop_first());
    }
}

pub proof fn lemma_bytes_before_transitive(a: Seq<u8>, b: Seq<u8>, c: Seq<u8>)
    requires
        bytes_before(a, b),
        bytes_before(b, c),
    ensures
        bytes_before(a, c),
    decreases a.len(),
{
    if a.len() > 0 && a[0] == b[0] && b[0] == c[0] {
        lemma_bytes_before_transitive(a.drop_first(), b.drop_first(), c.drop_first());
    }
}

pub proof fn lemma_bytes_before_total(a: Seq<u8>, b: Seq<u8>)
    ensures
        bytes_before(a, b) || bytes_before(b, a) || a == b,
    decreases a.len(),
{
    if a.len() == 0 || b.len() == 0 {
        if a.len() == 0 && b.len() == 0 {
            assert(a =~= b);
        }
    } else if a[0] == b[0] {
        lemma_bytes_before_total(a.drop_first(), b.drop_first());
        if a.drop_first() == b.drop_first() {
            assert(a =~= seq![a[0]] + a.drop_first());
            assert(b =~= seq![b[0]] + b.drop_first());
        }
    }
}

/// No identity comes before itself.
pub proof fn lemma_id_before_irreflexive(a: Seq<char>)
    ensures
        !id_before(a, a),
{
    lemma_bytes_before_irreflexive(encode_utf8(a));
}

/// The order of identities is transitive.
pub proof fn lemma_id_before_transitive(a: Seq<char>, b: Seq<char>, c: Seq<char>)
    requires
        id_before(a, b),
        id_before(b, c),
    ensures
        id_before(a, c),
{
    lemma_bytes_before_transitive(encode_utf8(a), encode_utf8(b), encode_utf8(c));
}

/// Two different identities are ordered one way or the other.
pub proof fn lemma_id_before_total(a: Seq<char>, b: Seq<char>)
    ensures
        id_before(a, b) || id_before(b, a) || a == b,
{
    lemma_bytes_before_total(encode_utf8(a), encode_utf8(b));
    if encode_utf8(a) == encode_utf8(b) {
        encode_utf8_decode_utf8(a);
        encode_utf8_decode_utf8(b);
    }
}

/// A strictly increasing sequence holds no identity twice.
pub proof fn lemma_increasing_is_duplicate_free(ids: Seq<Seq<char>>)
    requires
        strictly_increasing(ids),
    ensures
        forall|i: int, j: int| 0 <= i < ids.len() && 0 <= j < ids.len() && i != j ==> ids[i] != ids[j],
{
    assert forall|i: int, j: int| 0 <= i < ids.len() && 0 <= j < ids.len() && i != j implies ids[i]
        != ids[j] by {
        lemma_id_before_irreflexive(ids[i]);
        if i < j {
            assert(id_before(ids[i], ids[j]));
        } else {
            assert(id_before(ids[j], ids[i]));
        }
    }
}

/// What is left of a strictly increasing sequence after filtering is
/// strictly increasing.
pub proof fn lemma_filter_keeps_increasing(ids: Seq<Seq<char>>, keep: spec_fn(Seq<char>) -> bool)
    requires
        strictly_increasing(ids),
    ensures
        strictly_increasing(ids.filter(keep)),
    decreases ids.len(),
{
    reveal(Seq::filter);
    if ids.len() > 0 {
        let rest = ids.drop_last();
        let kept = rest.filter(keep);
        assert forall|i: int, j: int| 0 <= i < j < rest.len() implies id_before(
            #[trigger] rest[i],
            #[trigger] rest[j],
        ) by {
            assert(id_before(ids[i], ids[j]));
        }
        lemma_filter_keeps_increasing(rest, keep);
        if keep(ids.last()) {
            let all = ids.filter(keep);
            assert(all == kept.push(ids.last()));
            assert forall|i: int, j: int| 0 <= i < j < all.len() implies id_before(
                #[trigger] all[i],
                #[trigger] all[j],
            ) by {
                if j < kept.len() {
                    assert(id_before(kept[i], kept[j]));
                } else {
                    assert(kept.contains(kept[i]));
                    rest.lemma_filter_contains_rev(keep, kept[i]);
                    let k = choose|k: int| 0 <= k < rest.len() && rest[k] == kept[i];
                    assert(id_before(ids[k], ids[ids.len() - 1]));
                }
            }
        }
    }
}

/// Two strictly increasing sequences with the same members are one
/// sequence.
pub proof fn lemma_increasing_determined_by_members(a: Seq<Seq<char>>, b: Seq<Seq<char>>)
    requires
        strictly_increasing(a),
        strictly_increasing(b),
        forall|x: Seq<char>| a.contains(x) <==> b.contains(x),
    ensures
        a == b,
    decreases a.len(),
{
    if a.len() == 0 {
        if b.len() > 0 {
            assert(b.contains(b[0]));
        }
        assert(a =~= b);
    } else if b.len() == 0 {
        assert(a.contains(a[0]));
    } else {
        let x = a.last();
        let y = b.last();
        assert(a.contains(x));
        assert(b.contains(y));
        let i = choose|i: int| 0 <= i < b.len() && b[i] == x;
        let j = choose|j: int| 0 <= j < a.len() && a[j] == y;
        if x != y {
            assert(i != b.len() - 1);
            assert(j != a.len() - 1);
            assert(id_before(b[i], b[b.len() - 1]));
            assert(id_before(a[j], a[a.len() - 1]));
            lemma_id_before_transitive(x, y, x);
            lemma_id_before_irreflexive(x);
        }
        lemma_increasing_is_duplicate_free(a);
        lemma_increasing_is_duplicate_free(b);
        let a0 = a.drop_last();
        let b0 = b.drop_last();
        assert forall|u: int, v: int| 0 <= u < v < a0.len() implies id_before(
            #[trigger] a0[u],
            #[trigger] a0[v],
        ) by {
            assert(id_before(a[u], a[v]));
        }
        assert forall|u: int, v: int| 0 <= u < v < b0.len() implies id_before(
            #[trigger] b0[u],
            #[trigger] b0[v],
        ) by {
            assert(id_before(b[u], b[v]));
        }
        assert forall|z: Seq<char>| a0.contains(z) <==> b0.contains(z) by {
            if a0.contains(z) {
                let u = choose|u: int| 0 <= u < a0.len() && a0[u] == z;
                assert(a[u] == z);
                assert(a.contains(z));
                let v = choose|v: int| 0 <= v < b.len() && b[v] == z;
                assert(v != b.len() - 1);
                assert(b0[v] == z);
            }
            if b0.contains(z) {
                let v = choose|v: int| 0 <= v < b0.len() && b0[v] == z;
                assert(b[v] == z);
                assert(b.contains(z));
                let u = choose|u: int| 0 <= u < a.len() && a[u] == z;
                assert(u != a.len() - 1);
                assert(a0[u] == z);
            }
        }
        lemma_increasing_determined_by_members(a0, b0);
        assert(a =~= a0.push(x));
        assert(b =~= b0.push(y));
    }
}

/// Whether `a` comes strictly before `b` in the order of identities.
pub fn precedes(a: &str, b: &str) -> (r: bool)
    ensures
        r == id_before(a@, b@),
{
    let x = a.as_bytes();
    let y = b.as_bytes();
    let mut i: usize = 0;
    proof {
        assert(x@.skip(0) =~= x@);
        assert(y@.skip(0) =~= y@);
    }
    while i < x.len() && i < y.len() && x[i] == y[i]
        invariant
            i <= x.len(),
            i <= y.len(),
            bytes_before(x@, y@) == bytes_before(x@.skip(i as int), y@.skip(i as int)),
        decreases x.len() - i,
    {
        proof {
            assert(x@.skip(i as int).drop_first() =~= x@.skip(i as int + 1));
            assert(y@.skip(i as int).drop_first() =~= y@.skip(i as int + 1));
        }
        i = i + 1;
    }
    if i >= y.len() {
        false
    } else if i >= x.len() {
        true
    } else {
        x[i] < y[i]
    }
}

/// Where `id` stands in a strictly increasing vector of identities: the
/// index at which it is found, or else the index at which it would have to
/// be inserted to keep the vector increasing.
pub(crate) fn search(ids: &Vec<PackageId>, id: &str) -> (r: Result<usize, usize>)
    requires
        strictly_increasing(ids.deep_view()),
    ensures
        match r {
            Ok(i) => i < ids.len() && ids[i as int]@ == id@,
            Err(p) => {
                &&& p <= ids.len()
                &&& !ids.deep_view().contains(id@)
                &&& forall|i: int| 0 <= i < p ==> id_before(#[trigger] ids[i]@, id@)
                &&& forall|i: int| p <= i < ids.len() ==> id_before(id@, #[trigger] ids[i]@)
            },
        },
{
    let mut lo: usize = 0;
    let mut hi: usize = ids.len();
    while lo < hi
        invariant
            lo <= hi <= ids.len(),
            strictly_increasing(ids.deep_view()),
            forall|i: int| 0 <= i < lo ==> id_before(#[trigger] ids[i]@, id@),
            forall|i: int| hi <= i < ids.len() ==> id_before(id@, #[trigger] ids[i]@),
        decreases hi - lo,
    {
        let mid = lo + (hi - lo) / 2;
        let here = ids[mid].as_str();
        if precedes(here, id) {
            proof {
                assert forall|i: int| 0 <= i < mid + 1 implies id_before(#[trigger] ids[i]@, id@) by {
                    if i < mid {
                        assert(id_before(ids.deep_view()[i], ids.deep_view()[mid as int]));
                        lemma_id_before_transitive(ids[i]@, ids[mid as int]@, id@);
                    }
                }
            }
            lo = mid + 1;
        } else if precedes(id, here) {
            proof {
                assert forall|i: int| mid <= i < ids.len() implies id_before(id@, #[trigger] ids[i]@) by {
                    if mid < i {
                        assert(id_before(ids.deep_view()[mid as int], ids.deep_view()[i]));
                        lemma_id_before_transitive(id@, ids[mid as int]@, ids[i]@);
                    }
                }
            }
            hi = mid;
        } else {
            proof {
                lemma_id_before_total(here@, id@);
            }
            return Ok(mid);
        }
    }
    proof {
        assert forall|i: int| 0 <= i < ids.len() implies ids.deep_view()[i] != id@ by {
            lemma_id_before_irreflexive(id@);
            assert(id_before(ids[i]@, id@) || id_before(id@, ids[i]@));
        }
    }
    Err(lo)
}

} // verus!
