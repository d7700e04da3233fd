//! What the text helpers mean, said of the characters themselves.
use vstd::prelude::*;
use crate::text::{decimal_of, occurs_at, occurs_in, texts};

verus! {

/// A text occurs in another exactly where the other is that text with something
/// before it and something behind it.
pub proof fn law_what_occurring_means(needle: Seq<char>, text: Seq<char>)
    ensures
        occurs_in(needle, text) <==> exists|before: Seq<char>, behind: Seq<char>|
            text == #[trigger] (before + needle + behind),
{
    if occurs_in(needle, text) {
        let i = choose|i: int| occurs_at(needle, text, i);
        let before = text.take(i);
        let behind = text.skip(i + needle.len());
        assert(text =~= before + needle + behind) by {
            assert forall|k: int| i <= k < i + needle.len() implies text[k] == needle[k - i] by {
                assert(text.subrange(i, i + needle.len())[k - i] == text[k]);
            }
        }
    }
    if exists|before: Seq<char>, behind: Seq<char>|
        text == #[trigger] (before + needle + behind) {
        let (before, behind) = choose|before: Seq<char>, behind: Seq<char>|
            text == #[trigger] (before + needle + behind);
        let i = before.len() as int;
        assert(text.subrange(i, i + needle.len()) =~= needle);
        assert(occurs_at(needle, text, i));
    }
}

/// A number in decimal consists of decimal digits, begins with no zero unless it
/// is zero, and reads as the number.
pub proof fn law_a_decimal_reads_as_its_number(n: nat)
    ensures
        decimal_of(n).len() >= 1,
        forall|i: int| 0 <= i < decimal_of(n).len() ==> '0' <= #[trigger] decimal_of(n)[i] <= '9',
        decimal_of(n)[0] == '0' ==> n == 0,
        decimal_of(n).fold_left(0int, |sum: int, c: char| sum * 10 + (c as int - 48)) == n,
    decreases n,
{
    let f = |sum: int, c: char| sum * 10 + (c as int - 48);
    if n < 10 {
        let s = decimal_of(n);
        assert(s.drop_last() =~= Seq::<char>::empty());
        assert(s.drop_last().fold_left(0int, f) == 0);
    } else {
        law_a_decimal_reads_as_its_number(n / 10);
        let s = decimal_of(n);
        let head = decimal_of(n / 10);
        assert(s.drop_last() =~= head);
        assert(s[0] == head[0]);
        assert forall|i: int| 0 <= i < s.len() implies '0' <= #[trigger] s[i] <= '9' by {
            if i < head.len() {
                assert(s[i] == head[i]);
            }
        }
    }
}

/// The characters of a list of strings are those of each string, in order.
pub proof fn law_texts_are_those_of_the_strings(v: Seq<String>)
    ensures
        texts(v).len() == v.len(),
        forall|i: int| 0 <= i < v.len() ==> #[trigger] texts(v)[i] == v[i]@,
{
}

} // verus!
