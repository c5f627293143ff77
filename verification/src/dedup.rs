use std::collections::HashSet;
use vstd::prelude::*;

verus! {

/// `s` with every element after its first occurrence removed, the order of
/// first occurrences kept.
pub open spec fn first_occurrences<K>(s: Seq<K>) -> Seq<K>
    decreases s.len(),
{
    if s.len() == 0 {
        seq![]
    } else if s.drop_last().contains(s.last()) {
        first_occurrences(s.drop_last())
    } else {
        first_occurrences(s.drop_last()).push(s.last())
    }
}

/// No element of `s` occurs twice.
pub open spec fn no_duplicates<K>(s: Seq<K>) -> bool {
    forall|i: int, j: int| 0 <= i < j < s.len() ==> s[i] != s[j]
}

/// Deduplication keeps exactly the elements that occur: an element occurs in
/// the result if and only if it occurs in the input.
pub proof fn law_dedup_same_elements<K>(s: Seq<K>, x: K)
    ensures
        first_occurrences(s).contains(x) <==> s.contains(x),
    decreases s.len(),
{
    if s.len() > 0 {
        let p = s.drop_last();
        law_dedup_same_elements(p, x);
        assert(s =~= p.push(s.last()));
        if s.contains(x) {
            let i = choose|i: int| 0 <= i < s.len() && s[i] == x;
            if i < p.len() {
                assert(p[i] == x);
            }
        }
        if p.contains(x) {
            let i = choose|i: int| 0 <= i < p.len() && p[i] == x;
            assert(s[i] == x);
        }
        if !p.contains(s.last()) {
            let q = first_occurrences(p);
            if q.push(s.last()).contains(x) {
                let i = choose|i: int| 0 <= i < q.len() + 1 && q.push(s.last())[i] == x;
                if i < q.len() {
                    assert(q[i] == x);
                }
            }
            if q.contains(x) {
                let i = choose|i: int| 0 <= i < q.len() && q[i] == x;
                assert(q.push(s.last())[i] == x);
            }
            assert(q.push(s.last())[q.len() as int] == s.last());
        }
    }
}

/// No element occurs twice in the result of deduplication.
pub proof fn law_dedup_no_duplicates<K>(s: Seq<K>)
    ensures
        no_duplicates(first_occurrences(s)),
    decreases s.len(),
{
    if s.len() > 0 {
        let p = s.drop_last();
        law_dedup_no_duplicates(p);
        if !p.contains(s.last()) {
            law_dedup_same_elements(p, s.last());
            let q = first_occurrences(p);
            let r = q.push(s.last());
            assert forall|i: int, j: int| 0 <= i < j < r.len() implies r[i] != r[j] by {
                if j == q.len() {
                    assert(r[i] == q[i]);
                    if q[i] == s.last() {
                        assert(q.contains(s.last()));
                    }
                } else {
                    assert(r[i] == q[i] && r[j] == q[j]);
                }
            }
        }
    }
}

/// A sequence without duplicates is its own deduplication.
pub proof fn law_dedup_keeps_distinct<K>(s: Seq<K>)
    requires
        no_duplicates(s),
    ensures
        first_occurrences(s) == s,
    decreases s.len(),
{
    if s.len() > 0 {
        let p = s.drop_last();
        assert(no_duplicates(p));
        law_dedup_keeps_distinct(p);
        if p.contains(s.last()) {
            let i = choose|i: int| 0 <= i < p.len() && p[i] == s.last();
            assert(s[i] == s[s.len() - 1]);
        }
        assert(p.push(s.last()) =~= s);
    }
}

/// Deduplicating twice gives what deduplicating once gives.
pub proof fn law_dedup_idempotent<K>(s: Seq<K>)
    ensures
        first_occurrences(first_occurrences(s)) == first_occurrences(s),
{
    law_dedup_no_duplicates(s);
    law_dedup_keeps_distinct(first_occurrences(s));
}

/// A colour key packed into one number: the three channels side by side.
pub open spec fn key_code(k: [u32; 3]) -> int {
    k[0] * 0x1_0000_0000_0000_0000 + k[1] * 0x1_0000_0000 + k[2]
}

/// Distinct colour keys pack to distinct numbers.
pub proof fn law_key_code_injective(a: [u32; 3], b: [u32; 3])
    ensures
        key_code(a) == key_code(b) ==> a == b,
{
    if key_code(a) == key_code(b) {
        assert(a[0] == b[0]);
        assert(a[1] == b[1]);
        assert(a[2] == b[2]);
        assert(a@ =~= b@);
    }
}

fn pack_key(k: [u32; 3]) -> (code: u128)
    ensures
        code == key_code(k),
{
    (k[0] as u128) * 0x1_0000_0000_0000_0000 + (k[1] as u128) * 0x1_0000_0000 + (k[2] as u128)
}

/// `palette` with each colour key kept only where it first occurs. A colour
/// stands here for the bit patterns of its three channels, so two colours
/// are duplicates exactly when their keys are equal.
pub fn deduped_preserve_order(palette: &[[u32; 3]]) -> (kept: Vec<[u32; 3]>)
    ensures
        kept@ == first_occurrences(palette@),
{
    broadcast use vstd::std_specs::hash::group_hash_axioms;

    let mut seen: HashSet<u128> = HashSet::with_capacity(palette.len());
    let mut kept: Vec<[u32; 3]> = Vec::new();
    let mut i: usize = 0;
    while i < palette.len()
        invariant
            i <= palette@.len(),
            kept@ == first_occurrences(palette@.take(i as int)),
            forall|x: [u32; 3]| seen@.contains(#[trigger] key_code(x) as u128) <==> palette@.take(i as int).contains(x),
        decreases palette@.len() - i,
    {
        let key = palette[i];
        let ghost prefix = palette@.take(i as int);
        let ghost next = palette@.take(i + 1);
        assert(next.drop_last() =~= prefix);
        assert(next =~= prefix.push(key));
        let code = pack_key(key);
        if seen.insert(code) {
            kept.push(key);
        }
        assert forall|x: [u32; 3]| seen@.contains(#[trigger] key_code(x) as u128) <==> next.contains(x) by {
            law_key_code_injective(x, key);
            if next.contains(x) {
                let j = choose|j: int| 0 <= j < next.len() && next[j] == x;
                if j < i {
                    assert(prefix[j] == x);
                }
            }
            if prefix.contains(x) {
                let j = choose|j: int| 0 <= j < prefix.len() && prefix[j] == x;
                assert(next[j] == x);
            }
            if x == key {
                assert(next[i as int] == x);
            }
        }
        i = i + 1;
    }
    assert(palette@.take(palette@.len() as int) =~= palette@);
    kept
}

/// Removes from `palette` each colour key that occurred earlier, keeping the
/// order of the rest.
pub fn dedup_preserve_order(palette: &mut Vec<[u32; 3]>)
    ensures
        final(palette)@ == first_occurrences(old(palette)@),
{
    let kept = deduped_preserve_order(palette.as_slice());
    *palette = kept;
}

} // verus!
