//! What trimming, searching and splitting are for.

use vstd::prelude::*;
use crate::text::{first_at, is_space, law_comma_joins_lists, list_items, lower, non_blank};
use crate::text::{says_true, strings, texts, trim_end, trim_start, trimmed};
use crate::written::lemma_one_piece;

verus! {

/// The characters that count as white space.
pub open spec fn white() -> Seq<char> {
    seq![
        '\t', '\n', '\u{b}', '\u{c}', '\r', ' ', '\u{85}', '\u{a0}', '\u{1680}', '\u{2000}',
        '\u{2001}', '\u{2002}', '\u{2003}', '\u{2004}', '\u{2005}', '\u{2006}', '\u{2007}',
        '\u{2008}', '\u{2009}', '\u{200a}', '\u{2028}', '\u{2029}', '\u{202f}', '\u{205f}',
        '\u{3000}',
    ]
}

/// Whether a text is white space only.
pub open spec fn blank(s: Seq<char>) -> bool {
    forall|i: int| 0 <= i < s.len() ==> white().contains(#[trigger] s[i])
}

/// Whether a text does not start or end with white space.
pub open spec fn bare(s: Seq<char>) -> bool {
    s.len() > 0 ==> !white().contains(s[0]) && !white().contains(s.last())
}

/// Which characters are white space.
pub proof fn law_white_space(c: char)
    ensures
        is_space(c) <==> white().contains(c),
{
    let w = white();
    assert(w.len() == 25);
    if is_space(c) {
        let n = c as int;
        let k: int = if 0x9 <= n <= 0xd {
            n - 0x9
        } else if n == 0x20 {
            5
        } else if n == 0x85 {
            6
        } else if n == 0xa0 {
            7
        } else if n == 0x1680 {
            8
        } else if 0x2000 <= n <= 0x200a {
            n - 0x2000 + 9
        } else if n == 0x2028 {
            20
        } else if n == 0x2029 {
            21
        } else if n == 0x202f {
            22
        } else if n == 0x205f {
            23
        } else {
            24
        };
        assert(w[k] == c);
    }
}

proof fn lemma_trim_start(before: Seq<char>, s: Seq<char>)
    requires
        blank(before),
        s.len() > 0 ==> !white().contains(s[0]),
    ensures
        trim_start(before + s) == s,
    decreases before.len(),
{
    let all = before + s;
    if before.len() == 0 {
        assert(all =~= s);
        if s.len() > 0 {
            law_white_space(s[0]);
        }
    } else {
        assert(all[0] == before[0]);
        law_white_space(before[0]);
        assert(blank(before.drop_first())) by {
            assert forall|i: int| 0 <= i < before.drop_first().len() implies white().contains(
                #[trigger] before.drop_first()[i],
            ) by {
                assert(before.drop_first()[i] == before[i + 1]);
            }
        }
        assert(all.drop_first() =~= before.drop_first() + s);
        lemma_trim_start(before.drop_first(), s);
    }
}

proof fn lemma_trim_end(s: Seq<char>, behind: Seq<char>)
    requires
        blank(behind),
        s.len() > 0 ==> !white().contains(s.last()),
    ensures
        trim_end(s + behind) == s,
    decreases behind.len(),
{
    let all = s + behind;
    if behind.len() == 0 {
        assert(all =~= s);
        if s.len() > 0 {
            law_white_space(s.last());
        }
    } else {
        assert(white().contains(behind[behind.len() - 1]));
        law_white_space(behind.last());
        let front = behind.drop_last();
        assert(blank(front)) by {
            assert forall|i: int| 0 <= i < front.len() implies white().contains(#[trigger] front[i]) by {
                assert(front[i] == behind[i]);
            }
        }
        assert(all.drop_last() =~= s + front);
        lemma_trim_end(s, front);
    }
}

/// Trimming takes all white space around a text away, and nothing else.
pub proof fn law_trimming(before: Seq<char>, s: Seq<char>, behind: Seq<char>)
    requires
        blank(before),
        blank(behind),
        bare(s),
    ensures
        trimmed(before + s + behind) == s,
{
    if s.len() == 0 {
        let all = before + s + behind;
        assert(blank(all)) by {
            assert forall|i: int| 0 <= i < all.len() implies white().contains(#[trigger] all[i]) by {
                if i < before.len() {
                    assert(all[i] == before[i]);
                } else {
                    assert(all[i] == behind[i - before.len()]);
                }
            }
        }
        lemma_trim_start(all, s);
        assert(all + s =~= all);
        assert(trim_end(s) == s);
    } else {
        assert(before + s + behind =~= before + (s + behind));
        assert((s + behind)[0] == s[0]);
        lemma_trim_start(before, s + behind);
        lemma_trim_end(s, behind);
    }
}

/// A character is found where it first occurs, and nowhere else.
pub proof fn law_first_at(s: Seq<char>, c: char)
    ensures
        0 <= first_at(s, c, 0) <= s.len(),
        first_at(s, c, 0) < s.len() ==> s[first_at(s, c, 0)] == c,
        forall|i: int| 0 <= i < first_at(s, c, 0) ==> #[trigger] s[i] != c,
{
    lemma_first_at_from(s, c, 0);
}

proof fn lemma_first_at_from(s: Seq<char>, c: char, from: int)
    requires
        0 <= from <= s.len(),
    ensures
        from <= first_at(s, c, from) <= s.len(),
        first_at(s, c, from) < s.len() ==> s[first_at(s, c, from)] == c,
        forall|i: int| from <= i < first_at(s, c, from) ==> #[trigger] s[i] != c,
    decreases s.len() - from,
{
    if from < s.len() && s[from] != c {
        lemma_first_at_from(s, c, from + 1);
    }
}

/// A text without commas is one item of a list, without the white space around it; and a text of
/// white space only is none. With what holds of two lists with a comma between them, this says of
/// every list what its items are.
pub proof fn law_list_of_one(before: Seq<char>, item: Seq<char>, behind: Seq<char>)
    requires
        blank(before),
        blank(behind),
        bare(item),
        !item.contains(','),
    ensures
        list_items(before + item + behind) == (if item.len() == 0 {
            Seq::<Seq<char>>::empty()
        } else {
            seq![item]
        }),
{
    let s = before + item + behind;
    assert(!s.contains(',')) by {
        if s.contains(',') {
            let i = choose|i: int| 0 <= i < s.len() && s[i] == ',';
            if i < before.len() {
                assert(before[i] == ',');
            } else if i < before.len() + item.len() {
                assert(item[i - before.len()] == ',');
            } else {
                assert(behind[i - before.len() - item.len()] == ',');
            }
            assert(white().contains(',') || item.contains(','));
        }
    }
    lemma_one_piece(s, ',');
    law_trimming(before, item, behind);
    let one = seq![s];
    assert(one.drop_last() =~= Seq::<Seq<char>>::empty());
    assert(one.last() == s);
    assert(non_blank(one.drop_last()) =~= Seq::<Seq<char>>::empty());
    assert(non_blank(one) =~= (if item.len() == 0 {
        Seq::<Seq<char>>::empty()
    } else {
        seq![item]
    }));
}

/// Items with commas between them, the first before the others.
pub open spec fn comma_list(items: Seq<Seq<char>>) -> Seq<char>
    decreases items.len(),
{
    if items.len() == 0 {
        Seq::empty()
    } else if items.len() == 1 {
        items[0]
    } else {
        comma_list(items.drop_last()).push(',') + items.last()
    }
}

/// Whatever items are written with commas between them are the items that are read, all of them and
/// in their order.
pub proof fn law_lists_are_read(items: Seq<Seq<char>>)
    requires
        forall|i: int|
            0 <= i < items.len() ==> (#[trigger] items[i]).len() > 0 && bare(items[i])
                && !items[i].contains(','),
    ensures
        list_items(comma_list(items)) == items,
    decreases items.len(),
{
    let none = Seq::<char>::empty();
    if items.len() == 0 {
        law_list_of_one(none, none, none);
        assert(none + none + none =~= none);
        assert(items =~= Seq::<Seq<char>>::empty());
    } else {
        let last = items[items.len() - 1];
        law_list_of_one(none, last, none);
        assert(none + last + none =~= last);
        if items.len() == 1 {
            assert(items =~= seq![last]);
        } else {
            let front = items.drop_last();
            assert forall|i: int| 0 <= i < front.len() implies (#[trigger] front[i]).len() > 0
                && bare(front[i]) && !front[i].contains(',') by {
                assert(front[i] == items[i]);
            }
            law_lists_are_read(front);
            law_comma_joins_lists(comma_list(front), last);
            assert(front + seq![last] =~= items);
        }
    }
}

/// Whether a character is a letter, in lower or in upper case.
pub open spec fn is_letter(c: char, small: char, large: char) -> bool {
    c == small || c == large
}

/// A setting says yes exactly if it is `1`, or `true` in letters of either case.
pub proof fn law_yes(s: Seq<char>)
    ensures
        says_true(s) <==> s == seq!['1'] || (s.len() == 4 && is_letter(s[0], 't', 'T') && is_letter(
            s[1],
            'r',
            'R',
        ) && is_letter(s[2], 'u', 'U') && is_letter(s[3], 'e', 'E')),
{
    if s.len() == 4 {
        assert(lower(s[0]) == 't' as int <==> s[0] == 't' || s[0] == 'T');
        assert(lower(s[1]) == 'r' as int <==> s[1] == 'r' || s[1] == 'R');
        assert(lower(s[2]) == 'u' as int <==> s[2] == 'u' || s[2] == 'U');
        assert(lower(s[3]) == 'e' as int <==> s[3] == 'e' || s[3] == 'E');
    }
}

/// What several texts hold is what each of them holds.
pub proof fn law_several_texts(a: Seq<String>, b: Seq<&str>, i: int)
    ensures
        strings(a).len() == a.len(),
        0 <= i < a.len() ==> strings(a)[i] == a[i]@,
        texts(b).len() == b.len(),
        0 <= i < b.len() ==> texts(b)[i] == b[i]@,
{
}

} // verus!
