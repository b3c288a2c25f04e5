//! The ordering over achievement rows and a verified stable insertion sort.
//!
//! The comparator orders by the configured column — rarity percentage
//! numerically, or name lexicographically by code point — and the direction
//! flips it. The sort is stable: rows with equal keys keep their relative
//! order, which also makes sorting idempotent.

use vstd::prelude::*;

verus! {

use vstd::string::StrSliceExecFns;
use crate::models::{AchievementItem, SortColumn, SortOrder};

/// Lexicographic order on character sequences, by code point; a prefix
/// precedes its extensions.
pub open spec fn lex_leq(a: Seq<char>, b: Seq<char>) -> bool
    decreases a.len(),
{
    if a.len() == 0 {
        true
    } else if b.len() == 0 {
        false
    } else if a[0] < b[0] {
        true
    } else if b[0] < a[0] {
        false
    } else {
        lex_leq(a.drop_first(), b.drop_first())
    }
}

proof fn lemma_lex_leq_total(a: Seq<char>, b: Seq<char>)
    ensures
        lex_leq(a, b) || lex_leq(b, a),
    decreases a.len(),
{
    if a.len() > 0 && b.len() > 0 && !(a[0] < b[0]) && !(b[0] < a[0]) {
        lemma_lex_leq_total(a.drop_first(), b.drop_first());
    }
}

/// Dropping an equal prefix does not change the lexicographic verdict.
proof fn lemma_lex_leq_skip(a: Seq<char>, b: Seq<char>, i: int)
    requires
        0 <= i <= a.len(),
        i <= b.len(),
        forall|j: int| 0 <= j < i ==> a[j] == b[j],
    ensures
        lex_leq(a, b) == lex_leq(a.skip(i), b.skip(i)),
    decreases i,
{
    if i > 0 {
        lemma_lex_leq_skip(a.drop_first(), b.drop_first(), i - 1);
        assert(a.drop_first().skip(i - 1) =~= a.skip(i));
        assert(b.drop_first().skip(i - 1) =~= b.skip(i));
    } else {
        assert(a.skip(0) =~= a);
        assert(b.skip(0) =~= b);
    }
}

/// Whether `a@` precedes or equals `b@` lexicographically.
pub fn str_lex_le(a: &str, b: &str) -> (r: bool)
    ensures
        r == lex_leq(a@, b@),
{
    let la: usize = a.unicode_len();
    let lb: usize = b.unicode_len();
    let mut i: usize = 0;
    while i < la && i < lb
        invariant
            i <= la,
            i <= lb,
            la == a@.len(),
            lb == b@.len(),
            forall|j: int| 0 <= j < i ==> a@[j] == b@[j],
        decreases la - i,
    {
        let ca: char = a.get_char(i);
        let cb: char = b.get_char(i);
        if ca != cb {
            proof {
                lemma_lex_leq_skip(a@, b@, i as int);
                assert(a@.skip(i as int)[0] == ca);
                assert(b@.skip(i as int)[0] == cb);
            }
            return ca < cb;
        }
        i = i + 1;
    }
    proof {
        lemma_lex_leq_skip(a@, b@, i as int);
    }
    la <= lb
}

/// Key order under the chosen column, before direction is applied.
pub open spec fn key_leq(col: SortColumn, a: AchievementItem, b: AchievementItem) -> bool {
    match col {
        SortColumn::Percentage => a.percentage <= b.percentage,
        SortColumn::Name => lex_leq(a.name@, b.name@),
    }
}

/// The full comparator: the key order of the chosen column, flipped when the
/// direction is descending. Equal keys compare both ways, so a stable sort
/// keeps their relative order in either direction.
pub open spec fn item_leq(
    col: SortColumn,
    ord: SortOrder,
    a: AchievementItem,
    b: AchievementItem,
) -> bool {
    match ord {
        SortOrder::Ascending => key_leq(col, a, b),
        SortOrder::Descending => key_leq(col, b, a),
    }
}

/// The comparator is total.
pub proof fn lemma_item_leq_total(
    col: SortColumn,
    ord: SortOrder,
    a: AchievementItem,
    b: AchievementItem,
)
    ensures
        item_leq(col, ord, a, b) || item_leq(col, ord, b, a),
{
    if col is Name {
        lemma_lex_leq_total(a.name@, b.name@);
    }
}

fn item_le(col: SortColumn, ord: SortOrder, a: &AchievementItem, b: &AchievementItem) -> (r: bool)
    ensures
        r == item_leq(col, ord, *a, *b),
{
    let (x, y): (&AchievementItem, &AchievementItem) = match ord {
        SortOrder::Ascending => (a, b),
        SortOrder::Descending => (b, a),
    };
    match col {
        SortColumn::Percentage => x.percentage <= y.percentage,
        SortColumn::Name => str_lex_le(x.name.as_str(), y.name.as_str()),
    }
}

/// Inserts `x` into `s` behind every element that compares at or below it:
/// the position a stable insertion sort gives it.
pub open spec fn insert_sorted(
    s: Seq<AchievementItem>,
    x: AchievementItem,
    col: SortColumn,
    ord: SortOrder,
) -> Seq<AchievementItem>
    decreases s.len(),
{
    if s.len() == 0 {
        seq![x]
    } else if item_leq(col, ord, s.last(), x) {
        s.push(x)
    } else {
        insert_sorted(s.drop_last(), x, col, ord).push(s.last())
    }
}

/// The stable sort of `s` under the given column and direction, defined as
/// an insertion sort taken left to right.
pub open spec fn sort_spec(s: Seq<AchievementItem>, col: SortColumn, ord: SortOrder) -> Seq<
    AchievementItem,
>
    decreases s.len(),
{
    if s.len() == 0 {
        s
    } else {
        insert_sorted(sort_spec(s.drop_last(), col, ord), s.last(), col, ord)
    }
}

proof fn lemma_insert_sorted_len(s: Seq<AchievementItem>, x: AchievementItem, col: SortColumn, ord: SortOrder)
    ensures
        insert_sorted(s, x, col, ord).len() == s.len() + 1,
    decreases s.len(),
{
    if s.len() > 0 && !item_leq(col, ord, s.last(), x) {
        lemma_insert_sorted_len(s.drop_last(), x, col, ord);
    }
}

/// The sort permutes: it keeps the length (and, being built from inserts,
/// every element).
pub proof fn lemma_sort_spec_len(s: Seq<AchievementItem>, col: SortColumn, ord: SortOrder)
    ensures
        sort_spec(s, col, ord).len() == s.len(),
    decreases s.len(),
{
    if s.len() > 0 {
        lemma_sort_spec_len(s.drop_last(), col, ord);
        lemma_insert_sorted_len(sort_spec(s.drop_last(), col, ord), s.last(), col, ord);
    }
}

proof fn lemma_insert_sorted_multiset(
    s: Seq<AchievementItem>,
    x: AchievementItem,
    col: SortColumn,
    ord: SortOrder,
)
    ensures
        insert_sorted(s, x, col, ord).to_multiset() == s.to_multiset().insert(x),
    decreases s.len(),
{
    broadcast use vstd::seq_lib::group_to_multiset_ensures;

    if s.len() == 0 {
        assert(insert_sorted(s, x, col, ord) =~= Seq::<AchievementItem>::empty().push(x));
        assert(Seq::<AchievementItem>::empty().push(x).to_multiset() =~= s.to_multiset().insert(
            x,
        ));
    } else if item_leq(col, ord, s.last(), x) {
    } else {
        let t = s.drop_last();
        lemma_insert_sorted_multiset(t, x, col, ord);
        assert(t.push(s.last()) =~= s);
        assert(insert_sorted(t, x, col, ord).push(s.last()).to_multiset() =~= s.to_multiset().insert(x));
    }
}

/// The sort permutes the rows: none is dropped, none is duplicated.
pub proof fn lemma_sort_spec_permutes(s: Seq<AchievementItem>, col: SortColumn, ord: SortOrder)
    ensures
        sort_spec(s, col, ord).to_multiset() == s.to_multiset(),
    decreases s.len(),
{
    broadcast use vstd::seq_lib::group_to_multiset_ensures;

    if s.len() > 0 {
        let t = s.drop_last();
        lemma_sort_spec_permutes(t, col, ord);
        lemma_insert_sorted_multiset(sort_spec(t, col, ord), s.last(), col, ord);
        assert(t.push(s.last()) =~= s);
        assert(t.to_multiset().insert(s.last()) =~= s.to_multiset());
    }
}

/// Where the scan of an insertion sort stops is where `insert_sorted` puts
/// the new element.
proof fn lemma_insert_sorted_at_pos(
    s: Seq<AchievementItem>,
    x: AchievementItem,
    col: SortColumn,
    ord: SortOrder,
    pos: int,
)
    requires
        0 <= pos <= s.len(),
        forall|k: int| pos <= k < s.len() ==> !item_leq(col, ord, s[k], x),
        pos == 0 || item_leq(col, ord, s[pos - 1], x),
    ensures
        insert_sorted(s, x, col, ord) == s.take(pos) + seq![x] + s.skip(pos),
    decreases s.len(),
{
    if s.len() == 0 {
        assert(insert_sorted(s, x, col, ord) =~= s.take(0) + seq![x] + s.skip(0));
    } else if pos == s.len() {
        assert(insert_sorted(s, x, col, ord) =~= s.take(pos) + seq![x] + s.skip(pos));
    } else {
        assert(!item_leq(col, ord, s.last(), x));
        lemma_insert_sorted_at_pos(s.drop_last(), x, col, ord, pos);
        assert(insert_sorted(s, x, col, ord) =~= s.take(pos) + seq![x] + s.skip(pos));
    }
}

/// The rows are ordered: each one compares at or below its successor.
pub open spec fn sorted_by(s: Seq<AchievementItem>, col: SortColumn, ord: SortOrder) -> bool {
    forall|i: int| 0 <= i < s.len() - 1 ==> #[trigger] item_leq(col, ord, s[i], s[i + 1])
}

proof fn lemma_insert_sorted_last(s: Seq<AchievementItem>, x: AchievementItem, col: SortColumn, ord: SortOrder)
    ensures
        insert_sorted(s, x, col, ord).last() == x || (s.len() > 0 && insert_sorted(
            s,
            x,
            col,
            ord,
        ).last() == s.last()),
{
}

proof fn lemma_insert_sorted_preserves(
    s: Seq<AchievementItem>,
    x: AchievementItem,
    col: SortColumn,
    ord: SortOrder,
)
    requires
        sorted_by(s, col, ord),
    ensures
        sorted_by(insert_sorted(s, x, col, ord), col, ord),
    decreases s.len(),
{
    if s.len() == 0 {
    } else if item_leq(col, ord, s.last(), x) {
        let r = s.push(x);
        assert forall|i: int| 0 <= i < r.len() - 1 implies #[trigger] item_leq(col, ord, r[i], r[i + 1]) by {
            if i < s.len() - 1 {
                assert(item_leq(col, ord, s[i], s[i + 1]));
            }
        }
    } else {
        let t = s.drop_last();
        assert(sorted_by(t, col, ord)) by {
            assert forall|i: int| 0 <= i < t.len() - 1 implies #[trigger] item_leq(col, ord, t[i], t[i + 1]) by {
                assert(item_leq(col, ord, s[i], s[i + 1]));
            }
        }
        lemma_insert_sorted_preserves(t, x, col, ord);
        lemma_insert_sorted_len(t, x, col, ord);
        let u = insert_sorted(t, x, col, ord);
        let r = u.push(s.last());
        lemma_insert_sorted_last(t, x, col, ord);
        assert(item_leq(col, ord, u.last(), s.last())) by {
            if u.last() == x {
                lemma_item_leq_total(col, ord, s.last(), x);
            } else {
                assert(u.last() == t.last());
                assert(t.last() == s[s.len() - 2]);
                assert(item_leq(col, ord, s[s.len() - 2], s[(s.len() - 2) + 1]));
            }
        }
        assert forall|i: int| 0 <= i < r.len() - 1 implies #[trigger] item_leq(col, ord, r[i], r[i + 1]) by {
            if i < u.len() - 1 {
                assert(item_leq(col, ord, u[i], u[i + 1]));
            }
        }
    }
}

/// What the sort produces is sorted.
pub proof fn lemma_sort_spec_sorted(s: Seq<AchievementItem>, col: SortColumn, ord: SortOrder)
    ensures
        sorted_by(sort_spec(s, col, ord), col, ord),
    decreases s.len(),
{
    if s.len() > 0 {
        lemma_sort_spec_sorted(s.drop_last(), col, ord);
        lemma_insert_sorted_preserves(sort_spec(s.drop_last(), col, ord), s.last(), col, ord);
    }
}

/// Sorting an already-sorted sequence leaves it untouched.
pub proof fn lemma_sort_spec_of_sorted(s: Seq<AchievementItem>, col: SortColumn, ord: SortOrder)
    requires
        sorted_by(s, col, ord),
    ensures
        sort_spec(s, col, ord) == s,
    decreases s.len(),
{
    if s.len() > 0 {
        let t = s.drop_last();
        assert(sorted_by(t, col, ord)) by {
            assert forall|i: int| 0 <= i < t.len() - 1 implies #[trigger] item_leq(col, ord, t[i], t[i + 1]) by {
                assert(item_leq(col, ord, s[i], s[i + 1]));
            }
        }
        lemma_sort_spec_of_sorted(t, col, ord);
        if t.len() == 0 {
            assert(insert_sorted(t, s.last(), col, ord) =~= s);
        } else {
            assert(item_leq(col, ord, t.last(), s.last())) by {
                assert(item_leq(col, ord, s[s.len() - 2], s[(s.len() - 2) + 1]));
            }
            assert(t.push(s.last()) =~= s);
        }
    }
}

/// Sorting is idempotent: re-sorting under the same column and direction
/// yields an identical sequence.
pub proof fn lemma_sort_idempotent(s: Seq<AchievementItem>, col: SortColumn, ord: SortOrder)
    ensures
        sort_spec(sort_spec(s, col, ord), col, ord) == sort_spec(s, col, ord),
{
    lemma_sort_spec_sorted(s, col, ord);
    lemma_sort_spec_of_sorted(sort_spec(s, col, ord), col, ord);
}

/// Two rows the comparator cannot tell apart.
pub open spec fn key_equiv(col: SortColumn, ord: SortOrder, a: AchievementItem, b: AchievementItem) -> bool {
    item_leq(col, ord, a, b) && item_leq(col, ord, b, a)
}

/// The subsequence of rows the comparator cannot tell apart from `w`, in
/// the order they appear.
pub open spec fn class_rows(
    s: Seq<AchievementItem>,
    col: SortColumn,
    ord: SortOrder,
    w: AchievementItem,
) -> Seq<AchievementItem> {
    s.filter(|a: AchievementItem| key_equiv(col, ord, a, w))
}

proof fn lemma_insert_sorted_stable(
    s: Seq<AchievementItem>,
    x: AchievementItem,
    col: SortColumn,
    ord: SortOrder,
    w: AchievementItem,
)
    ensures
        class_rows(insert_sorted(s, x, col, ord), col, ord, w) == class_rows(s, col, ord, w) + (
        if key_equiv(col, ord, x, w) {
            seq![x]
        } else {
            Seq::<AchievementItem>::empty()
        }),
    decreases s.len(),
{
    reveal(Seq::filter);
    let tail = if key_equiv(col, ord, x, w) {
        seq![x]
    } else {
        Seq::<AchievementItem>::empty()
    };
    if s.len() == 0 {
        assert(insert_sorted(s, x, col, ord) =~= Seq::<AchievementItem>::empty().push(x));
        assert(Seq::<AchievementItem>::empty().push(x).drop_last()
            =~= Seq::<AchievementItem>::empty());
        assert(class_rows(insert_sorted(s, x, col, ord), col, ord, w) =~= class_rows(
            s,
            col,
            ord,
            w,
        ) + tail);
    } else if item_leq(col, ord, s.last(), x) {
        assert(s.push(x).drop_last() =~= s);
        assert(class_rows(insert_sorted(s, x, col, ord), col, ord, w) =~= class_rows(
            s,
            col,
            ord,
            w,
        ) + tail);
    } else {
        let t = s.drop_last();
        lemma_insert_sorted_stable(t, x, col, ord, w);
        let u = insert_sorted(t, x, col, ord);
        assert(u.push(s.last()).drop_last() =~= u);
        // The displaced last element is not equivalent to `x`: were both
        // equivalent to `w`, transitivity of the key order would put
        // `s.last()` at or below `x`, and it is not.
        if key_equiv(col, ord, s.last(), w) && key_equiv(col, ord, x, w) {
            lemma_item_leq_transitive(col, ord, s.last(), w, x);
            assert(false);
        }
        assert(class_rows(u.push(s.last()), col, ord, w) =~= class_rows(s, col, ord, w) + tail);
    }
}

proof fn lemma_lex_leq_transitive(a: Seq<char>, b: Seq<char>, c: Seq<char>)
    requires
        lex_leq(a, b),
        lex_leq(b, c),
    ensures
        lex_leq(a, c),
    decreases a.len(),
{
    if a.len() > 0 && b.len() > 0 && c.len() > 0 && !(a[0] < b[0]) && !(b[0] < a[0]) && !(b[0]
        < c[0]) && !(c[0] < b[0]) {
        lemma_lex_leq_transitive(a.drop_first(), b.drop_first(), c.drop_first());
    }
}

/// The comparator is transitive.
pub proof fn lemma_item_leq_transitive(
    col: SortColumn,
    ord: SortOrder,
    a: AchievementItem,
    b: AchievementItem,
    c: AchievementItem,
)
    requires
        item_leq(col, ord, a, b),
        item_leq(col, ord, b, c),
    ensures
        item_leq(col, ord, a, c),
{
    if col is Name {
        match ord {
            SortOrder::Ascending => lemma_lex_leq_transitive(a.name@, b.name@, c.name@),
            SortOrder::Descending => lemma_lex_leq_transitive(c.name@, b.name@, a.name@),
        }
    }
}

/// The sort is stable: for any key, the rows carrying it come out in
/// exactly the order they went in.
pub proof fn lemma_sort_spec_stable(
    s: Seq<AchievementItem>,
    col: SortColumn,
    ord: SortOrder,
    w: AchievementItem,
)
    ensures
        class_rows(sort_spec(s, col, ord), col, ord, w) == class_rows(s, col, ord, w),
    decreases s.len(),
{
    reveal(Seq::filter);
    if s.len() > 0 {
        let t = s.drop_last();
        lemma_sort_spec_stable(t, col, ord, w);
        lemma_insert_sorted_stable(sort_spec(t, col, ord), s.last(), col, ord, w);
        if key_equiv(col, ord, s.last(), w) {
            assert(class_rows(s, col, ord, w) =~= class_rows(t, col, ord, w) + seq![s.last()]);
        } else {
            assert(class_rows(s, col, ord, w) =~= class_rows(t, col, ord, w)
                + Seq::<AchievementItem>::empty());
        }
    }
}

proof fn lemma_lex_leq_refl(a: Seq<char>)
    ensures
        lex_leq(a, a),
    decreases a.len(),
{
    if a.len() > 0 {
        lemma_lex_leq_refl(a.drop_first());
    }
}

/// The comparator is reflexive.
pub proof fn lemma_item_leq_refl(col: SortColumn, ord: SortOrder, a: AchievementItem)
    ensures
        item_leq(col, ord, a, a),
{
    if col is Name {
        lemma_lex_leq_refl(a.name@);
    }
}

/// In a sorted sequence the last row bounds every row.
proof fn lemma_sorted_last_is_max(s: Seq<AchievementItem>, col: SortColumn, ord: SortOrder)
    requires
        sorted_by(s, col, ord),
        s.len() > 0,
    ensures
        forall|i: int| 0 <= i < s.len() ==> item_leq(col, ord, #[trigger] s[i], s.last()),
    decreases s.len(),
{
    if s.len() == 1 {
        lemma_item_leq_refl(col, ord, s.last());
    } else {
        let t = s.drop_last();
        assert(sorted_by(t, col, ord)) by {
            assert forall|i: int| 0 <= i < t.len() - 1 implies #[trigger] item_leq(
                col,
                ord,
                t[i],
                t[i + 1],
            ) by {
                assert(item_leq(col, ord, s[i], s[i + 1]));
            }
        }
        lemma_sorted_last_is_max(t, col, ord);
        assert(item_leq(col, ord, s[s.len() - 2], s[(s.len() - 2) + 1]));
        assert forall|i: int| 0 <= i < s.len() implies item_leq(col, ord, #[trigger] s[i], s.last()) by {
            if i < s.len() - 1 {
                assert(item_leq(col, ord, t[i], t.last()));
                lemma_item_leq_transitive(col, ord, s[i], s[s.len() - 2], s.last());
            } else {
                lemma_item_leq_refl(col, ord, s.last());
            }
        }
    }
}

/// A row of some key class belongs to the sequence itself.
proof fn lemma_class_rows_element_of(
    s: Seq<AchievementItem>,
    col: SortColumn,
    ord: SortOrder,
    w: AchievementItem,
    x: AchievementItem,
)
    requires
        class_rows(s, col, ord, w).contains(x),
    ensures
        s.contains(x),
    decreases s.len(),
{
    reveal(Seq::filter);
    if s.len() > 0 {
        let t = s.drop_last();
        if key_equiv(col, ord, s.last(), w) && s.last() == x {
            assert(s[s.len() - 1] == x);
        } else {
            if key_equiv(col, ord, s.last(), w) {
                assert(class_rows(s, col, ord, w) == class_rows(t, col, ord, w).push(s.last()));
                let i = choose|i: int|
                    0 <= i < class_rows(s, col, ord, w).len() && class_rows(s, col, ord, w)[i]
                        == x;
                assert(class_rows(t, col, ord, w)[i] == x);
            } else {
                assert(class_rows(s, col, ord, w) == class_rows(t, col, ord, w));
            }
            lemma_class_rows_element_of(t, col, ord, w, x);
            let j = choose|j: int| 0 <= j < t.len() && t[j] == x;
            assert(s[j] == x);
        }
    }
}

/// Two sequences sorted under the same comparator, whose key classes hold
/// the same rows in the same order, are one and the same sequence.
proof fn lemma_sorted_unique(
    p: Seq<AchievementItem>,
    s: Seq<AchievementItem>,
    col: SortColumn,
    ord: SortOrder,
)
    requires
        sorted_by(p, col, ord),
        sorted_by(s, col, ord),
        forall|w: AchievementItem| #[trigger] class_rows(p, col, ord, w) == class_rows(
            s,
            col,
            ord,
            w,
        ),
    ensures
        p == s,
    decreases p.len(),
{
    reveal(Seq::filter);
    if p.len() == 0 && s.len() == 0 {
        assert(p =~= s);
    } else if p.len() == 0 {
        let w = s.last();
        lemma_item_leq_refl(col, ord, w);
        assert(class_rows(s, col, ord, w) == class_rows(s.drop_last(), col, ord, w).push(w));
        assert(class_rows(p, col, ord, w).len() == 0);
        assert(false);
    } else if s.len() == 0 {
        let w = p.last();
        lemma_item_leq_refl(col, ord, w);
        assert(class_rows(p, col, ord, w) == class_rows(p.drop_last(), col, ord, w).push(w));
        assert(class_rows(s, col, ord, w).len() == 0);
        assert(false);
    } else {
        let y = p.last();
        let z = s.last();
        lemma_item_leq_refl(col, ord, y);
        lemma_item_leq_refl(col, ord, z);
        // `y` sits in `s` (through its own class), so `y` is at or below
        // `s`'s maximum; and symmetrically for `z` in `p`.
        assert(class_rows(p, col, ord, y) == class_rows(p.drop_last(), col, ord, y).push(y));
        assert(class_rows(s, col, ord, y).contains(y)) by {
            let cs = class_rows(s, col, ord, y);
            assert(cs[cs.len() - 1] == y);
        }
        lemma_class_rows_element_of(s, col, ord, y, y);
        lemma_sorted_last_is_max(s, col, ord);
        assert(item_leq(col, ord, y, z)) by {
            let i = choose|i: int| 0 <= i < s.len() && s[i] == y;
            assert(item_leq(col, ord, s[i], s.last()));
        }
        assert(class_rows(s, col, ord, z) == class_rows(s.drop_last(), col, ord, z).push(z));
        assert(class_rows(p, col, ord, z).contains(z)) by {
            let cp = class_rows(p, col, ord, z);
            assert(cp[cp.len() - 1] == z);
        }
        lemma_class_rows_element_of(p, col, ord, z, z);
        lemma_sorted_last_is_max(p, col, ord);
        assert(item_leq(col, ord, z, y)) by {
            let i = choose|i: int| 0 <= i < p.len() && p[i] == z;
            assert(item_leq(col, ord, p[i], p.last()));
        }
        // Equivalent last rows of equal classes are the same row.
        assert(key_equiv(col, ord, z, y));
        assert(class_rows(s, col, ord, y) == class_rows(s.drop_last(), col, ord, y).push(z));
        assert(y == z) by {
            let c = class_rows(p, col, ord, y);
            assert(c[c.len() - 1] == y);
            assert(class_rows(s, col, ord, y)[class_rows(s, col, ord, y).len() - 1] == z);
        }
        // The prefixes still satisfy everything, one row shorter.
        assert forall|v: AchievementItem| #[trigger] class_rows(p.drop_last(), col, ord, v)
            == class_rows(s.drop_last(), col, ord, v) by {
            if key_equiv(col, ord, y, v) {
                assert(class_rows(p, col, ord, v) == class_rows(p.drop_last(), col, ord, v).push(
                    y,
                ));
                assert(class_rows(s, col, ord, v) == class_rows(s.drop_last(), col, ord, v).push(
                    y,
                ));
                assert(class_rows(p.drop_last(), col, ord, v) =~= class_rows(
                    p,
                    col,
                    ord,
                    v,
                ).drop_last());
                assert(class_rows(s.drop_last(), col, ord, v) =~= class_rows(
                    s,
                    col,
                    ord,
                    v,
                ).drop_last());
            } else {
                assert(class_rows(p, col, ord, v) == class_rows(p.drop_last(), col, ord, v));
                assert(class_rows(s, col, ord, v) == class_rows(s.drop_last(), col, ord, v));
            }
        }
        assert(sorted_by(p.drop_last(), col, ord)) by {
            let t = p.drop_last();
            assert forall|i: int| 0 <= i < t.len() - 1 implies #[trigger] item_leq(
                col,
                ord,
                t[i],
                t[i + 1],
            ) by {
                assert(item_leq(col, ord, p[i], p[i + 1]));
            }
        }
        assert(sorted_by(s.drop_last(), col, ord)) by {
            let t = s.drop_last();
            assert forall|i: int| 0 <= i < t.len() - 1 implies #[trigger] item_leq(
                col,
                ord,
                t[i],
                t[i + 1],
            ) by {
                assert(item_leq(col, ord, s[i], s[i + 1]));
            }
        }
        lemma_sorted_unique(p.drop_last(), s.drop_last(), col, ord);
        assert(p.len() == s.len()) by {
            assert(p.drop_last().len() == s.drop_last().len());
        }
        assert forall|i: int| 0 <= i < p.len() implies p[i] == s[i] by {
            if i < p.len() - 1 {
                assert(p.drop_last()[i] == s.drop_last()[i]);
            } else {
                assert(p[i] == y);
                assert(s[i] == z);
            }
        }
        assert(p =~= s);
    }
}

/// Flipping the direction keeps every key class the same.
proof fn lemma_class_rows_flip(
    s: Seq<AchievementItem>,
    col: SortColumn,
    ord: SortOrder,
    w: AchievementItem,
)
    ensures
        class_rows(s, col, ord.flip(), w) == class_rows(s, col, ord, w),
    decreases s.len(),
{
    reveal(Seq::filter);
    if s.len() > 0 {
        lemma_class_rows_flip(s.drop_last(), col, ord, w);
    }
}

/// Toggling the direction twice restores the sequence: sorting in the
/// flipped direction and then back is the same as one sort, so a list that
/// was sorted comes back identical.
pub proof fn lemma_toggle_order_twice(s: Seq<AchievementItem>, col: SortColumn, ord: SortOrder)
    ensures
        sort_spec(sort_spec(s, col, ord.flip()), col, ord) == sort_spec(s, col, ord),
{
    let q = sort_spec(s, col, ord.flip());
    let lhs = sort_spec(q, col, ord);
    let rhs = sort_spec(s, col, ord);
    lemma_sort_spec_sorted(q, col, ord);
    lemma_sort_spec_sorted(s, col, ord);
    assert forall|w: AchievementItem| #[trigger] class_rows(lhs, col, ord, w) == class_rows(
        rhs,
        col,
        ord,
        w,
    ) by {
        lemma_sort_spec_stable(q, col, ord, w);
        lemma_class_rows_flip(q, col, ord, w);
        lemma_sort_spec_stable(s, col, ord.flip(), w);
        lemma_class_rows_flip(s, col, ord, w);
        lemma_sort_spec_stable(s, col, ord, w);
    }
    lemma_sorted_unique(lhs, rhs, col, ord);
}

/// On a list already sorted the round trip is exact: flipping the
/// direction and flipping it back hands back the very same sequence.
pub proof fn lemma_toggle_order_twice_restores(
    s: Seq<AchievementItem>,
    col: SortColumn,
    ord: SortOrder,
)
    requires
        sorted_by(s, col, ord),
    ensures
        sort_spec(sort_spec(s, col, ord.flip()), col, ord) == s,
{
    lemma_toggle_order_twice(s, col, ord);
    lemma_sort_spec_of_sorted(s, col, ord);
}

/// Reversing a sequence of rows twice restores the original sequence.
pub proof fn lemma_reverse_reverse(s: Seq<AchievementItem>)
    ensures
        s.reverse().reverse() == s,
{
    assert(s.reverse().reverse() =~= s);
}

/// Stable insertion sort of `v` under the given column and direction.
pub fn sort_items(v: &mut Vec<AchievementItem>, col: SortColumn, ord: SortOrder)
    ensures
        final(v)@ == sort_spec(old(v)@, col, ord),
{
    let ghost orig = v@;
    if v.len() <= 1 {
        proof {
            lemma_sort_spec_of_sorted(orig, col, ord);
        }
        return ;
    }
    proof {
        lemma_sort_spec_of_sorted(orig.take(1int), col, ord);
        assert(v@ =~= sort_spec(orig.take(1int), col, ord) + orig.skip(1int));
    }
    let mut i: usize = 1;
    while i < v.len()
        invariant
            1 <= i <= v@.len(),
            v@.len() == orig.len(),
            v@ == sort_spec(orig.take(i as int), col, ord) + orig.skip(i as int),
        decreases v@.len() - i,
    {
        proof {
            lemma_sort_spec_len(orig.take(i as int), col, ord);
        }
        let x: AchievementItem = v.remove(i);
        let ghost prefix = sort_spec(orig.take(i as int), col, ord);
        proof {
            assert(v@ =~= prefix + orig.skip(i + 1));
            assert(x == orig[i as int]) by {
                assert((prefix + orig.skip(i as int))[i as int] == orig.skip(i as int)[0]);
            }
        }
        let mut pos: usize = i;
        while pos > 0 && !item_le(col, ord, &v[pos - 1], &x)
            invariant
                pos <= i,
                i < orig.len(),
                v@ == prefix + orig.skip(i + 1),
                prefix.len() == i,
                v@.len() == orig.len() - 1,
                forall|k: int| pos <= k < i ==> !item_leq(col, ord, prefix[k], x),
            decreases pos,
        {
            proof {
                assert(v@[pos - 1] == prefix[pos - 1]);
            }
            pos = pos - 1;
        }
        proof {
            assert(pos > 0 ==> item_leq(col, ord, prefix[pos - 1], x)) by {
                if pos > 0 {
                    assert(v@[pos - 1] == prefix[pos - 1]);
                }
            }
        }
        v.insert(pos, x);
        proof {
            lemma_insert_sorted_at_pos(prefix, x, col, ord, pos as int);
            assert(orig.take(i + 1).drop_last() =~= orig.take(i as int));
            assert(orig.take(i + 1).last() == orig[i as int]);
            assert(sort_spec(orig.take(i + 1), col, ord) == insert_sorted(prefix, x, col, ord));
            assert(v@ =~= insert_sorted(prefix, x, col, ord) + orig.skip(i + 1));
        }
        i = i + 1;
    }
    proof {
        assert(orig.take(orig.len() as int) =~= orig);
        assert(orig.skip(orig.len() as int) =~= Seq::<AchievementItem>::empty());
        assert(v@ =~= sort_spec(orig, col, ord));
    }
}

} // verus!
