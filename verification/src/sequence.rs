//! Sequences in which nothing occurs twice.

use vstd::prelude::*;

verus! {

/// The sequence without the later occurrences of what it holds twice.
pub open spec fn distinct<A>(s: Seq<A>) -> Seq<A>
    decreases s.len(),
{
    if s.len() == 0 {
        s
    } else {
        let before = distinct(s.drop_last());
        if before.contains(s.last()) {
            before
        } else {
            before.push(s.last())
        }
    }
}

/// What a sequence holds after one more item: what it held, and the item.
proof fn lemma_push_contains<A>(s: Seq<A>, last: A, a: A)
    ensures
        s.push(last).contains(a) <==> (s.contains(a) || a == last),
{
    let t = s.push(last);
    if t.contains(a) {
        let i = choose|i: int| 0 <= i < t.len() && t[i] == a;
        if i < s.len() {
            assert(s[i] == a);
        }
    }
    if s.contains(a) {
        let i = choose|i: int| 0 <= i < s.len() && s[i] == a;
        assert(t[i] == a);
    }
    if a == last {
        assert(t[s.len() as int] == a);
    }
}

/// `distinct` keeps every item, once.
pub proof fn lemma_distinct<A>(s: Seq<A>)
    ensures
        distinct(s).no_duplicates(),
        distinct(s).len() <= s.len(),
        forall|a: A| #[trigger] distinct(s).contains(a) <==> s.contains(a),
    decreases s.len(),
{
    if s.len() > 0 {
        let before = s.drop_last();
        lemma_distinct(before);
        assert(s =~= before.push(s.last()));
        assert forall|a: A| #[trigger] distinct(s).contains(a) <==> s.contains(a) by {
            lemma_push_contains(before, s.last(), a);
            lemma_push_contains(distinct(before), s.last(), a);
            assert(distinct(before).contains(a) <==> before.contains(a));
        }
    }
}

} // verus!
