//! Checking the flags of a regular expression.
use vstd::prelude::*;
use crate::text::push_char;

verus! {

/// The flags a regular expression may carry, in the order in which they
/// are written back.
pub open spec fn flag_order() -> Seq<char> {
    "dgimsuvy"@
}

/// Whether `flags` holds only known flags, each at most once.
pub open spec fn flags_valid(flags: Seq<char>) -> bool {
    &&& forall|i: int| 0 <= i < flags.len() ==> flag_order().contains(#[trigger] flags[i])
    &&& flags.no_duplicates()
}

/// The flags of `flags`, each once, in the order `dgimsuvy`.
pub open spec fn canonical_flags(flags: Seq<char>) -> Seq<char> {
    flag_order().filter(|c: char| flags.contains(c))
}

/// Whether `c` occurs in `s`.
fn str_has(s: &str, c: char) -> (r: bool)
    ensures r == s@.contains(c),
{
    let n = s.unicode_len();
    let mut i: usize = 0;
    while i < n
        invariant
            n == s@.len(),
            i <= n,
            forall|j: int| 0 <= j < i ==> s@[j] != c,
        decreases n - i,
    {
        if s.get_char(i) == c {
            assert(s@[i as int] == c);
            return true;
        }
        i = i + 1;
    }
    false
}

/// Whether `c` occurs in `v`.
fn vec_has(v: &Vec<char>, c: char) -> (r: bool)
    ensures r == v@.contains(c),
{
    let mut i: usize = 0;
    while i < v.len()
        invariant
            i <= v.len(),
            forall|j: int| 0 <= j < i ==> v@[j] != c,
        decreases v.len() - i,
    {
        if v[i] == c {
            assert(v@[i as int] == c);
            return true;
        }
        i = i + 1;
    }
    false
}

/// The flags in the order `dgimsuvy`, or `None` when a flag is unknown or
/// given twice.
pub fn checked_flags(flags: &str) -> (r: Option<String>)
    ensures
        r is Some <==> flags_valid(flags@),
        r matches Some(s) ==> s@ == canonical_flags(flags@),
{
    let order = "dgimsuvy";
    let n = flags.unicode_len();
    let mut seen: Vec<char> = Vec::new();
    let mut i: usize = 0;
    while i < n
        invariant
            n == flags@.len(),
            i <= n,
            seen@ == flags@.take(i as int),
            order@ == flag_order(),
            flags_valid(seen@),
        decreases n - i,
    {
        let flag = flags.get_char(i);
        if !str_has(order, flag) || vec_has(&seen, flag) {
            assert(!flags_valid(flags@)) by {
                if !flag_order().contains(flag) {
                    assert(flags@[i as int] == flag);
                } else {
                    let k = choose|k: int| 0 <= k < seen@.len() && seen@[k] == flag;
                    assert(flags@[k] == flags@[i as int]);
                }
            }
            return None;
        }
        seen.push(flag);
        assert(seen@ =~= flags@.take(i + 1));
        i = i + 1;
    }
    assert(seen@ =~= flags@);
    let mut out = String::new();
    let m = order.unicode_len();
    let mut j: usize = 0;
    let ghost pred = |c: char| flags@.contains(c);
    while j < m
        invariant
            m == order@.len(),
            j <= m,
            order@ == flag_order(),
            seen@ == flags@,
            out@ == order@.take(j as int).filter(pred),
            pred == (|c: char| flags@.contains(c)),
        decreases m - j,
    {
        let flag = order.get_char(j);
        reveal_with_fuel(Seq::<_>::filter, 1);
        assert(order@.take(j + 1).drop_last() =~= order@.take(j as int));
        if vec_has(&seen, flag) {
            push_char(&mut out, flag);
        }
        j = j + 1;
    }
    assert(order@.take(m as int) =~= order@);
    Some(out)
}

/// Filtering by two tests that agree on every element gives the same.
proof fn lemma_filter_agree(s: Seq<char>, p: spec_fn(char) -> bool, q: spec_fn(char) -> bool)
    requires forall|i: int| 0 <= i < s.len() ==> p(#[trigger] s[i]) == q(s[i]),
    ensures s.filter(p) == s.filter(q),
    decreases s.len(),
{
    reveal_with_fuel(Seq::<_>::filter, 1);
    if s.len() > 0 {
        assert forall|i: int| 0 <= i < s.drop_last().len() implies p(#[trigger] s.drop_last()[i]) == q(s.drop_last()[i]) by {
            assert(s.drop_last()[i] == s[i]);
        }
        lemma_filter_agree(s.drop_last(), p, q);
        assert(p(s[s.len() - 1]) == q(s[s.len() - 1]));
    }
}

/// What a filter keeps of a sequence without repeats has none either.
proof fn lemma_filter_distinct(s: Seq<char>, p: spec_fn(char) -> bool)
    requires s.no_duplicates(),
    ensures s.filter(p).no_duplicates(),
    decreases s.len(),
{
    reveal_with_fuel(Seq::<_>::filter, 1);
    broadcast use vstd::seq_lib::group_filter_ensures;
    if s.len() > 0 {
        let rest = s.drop_last();
        assert(rest.no_duplicates()) by {
            assert forall|i: int, j: int| 0 <= i < rest.len() && 0 <= j < rest.len() && i != j
                implies rest[i] != rest[j] by {
                assert(rest[i] == s[i] && rest[j] == s[j]);
            }
        }
        lemma_filter_distinct(rest, p);
        let sub = rest.filter(p);
        if p(s.last()) {
            assert(!sub.contains(s.last())) by {
                if sub.contains(s.last()) {
                    let k = choose|k: int| 0 <= k < sub.len() && sub[k] == s.last();
                    lemma_filtered_from(rest, p, k);
                }
            }
            let out = sub.push(s.last());
            assert forall|i: int, j: int| 0 <= i < out.len() && 0 <= j < out.len() && i != j
                implies out[i] != out[j] by {
                if i == sub.len() {
                    assert(sub[j] != s.last());
                } else if j == sub.len() {
                    assert(sub[i] != s.last());
                }
            }
        }
    }
}

/// Each element that a filter keeps comes from the sequence filtered.
proof fn lemma_filtered_from(s: Seq<char>, p: spec_fn(char) -> bool, k: int)
    requires 0 <= k < s.filter(p).len(),
    ensures s.contains(s.filter(p)[k]),
    decreases s.len(),
{
    reveal_with_fuel(Seq::<_>::filter, 1);
    broadcast use vstd::seq_lib::group_filter_ensures;
    let rest = s.drop_last();
    let sub = rest.filter(p);
    if k < sub.len() {
        lemma_filtered_from(rest, p, k);
        let j = choose|j: int| 0 <= j < rest.len() && rest[j] == sub[k];
        assert(s[j] == rest[j]);
    } else {
        assert(s.filter(p)[k] == s[s.len() - 1]);
    }
}

/// Flags written back in their order are valid, and checking them again
/// gives them back unchanged.
pub proof fn law_canonical_flags_stable(flags: Seq<char>)
    ensures
        flags_valid(canonical_flags(flags)),
        canonical_flags(canonical_flags(flags)) == canonical_flags(flags),
{
    broadcast use vstd::seq_lib::group_filter_ensures;
    reveal_strlit("dgimsuvy");
    let order = flag_order();
    let p = |c: char| flags.contains(c);
    let canon = order.filter(p);
    assert(order.no_duplicates());
    lemma_filter_distinct(order, p);
    assert forall|i: int| 0 <= i < canon.len() implies order.contains(#[trigger] canon[i]) by {
        lemma_filtered_from(order, p, i);
    }
    let q = |c: char| canon.contains(c);
    assert forall|i: int| 0 <= i < order.len() implies p(#[trigger] order[i]) == q(order[i]) by {
        if p(order[i]) {
            assert(canon.contains(order[i]));
        }
        if q(order[i]) {
            let k = choose|k: int| 0 <= k < canon.len() && canon[k] == order[i];
            assert(p(canon[k]));
        }
    }
    lemma_filter_agree(order, p, q);
}

} // verus!
