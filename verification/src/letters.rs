//! Counting the occurrences of a letter in a text.
use vstd::prelude::*;
use crate::text::chars_of;

verus! {

/// How often `ch` stands in `s`.
pub open spec fn occurrences(s: Seq<char>, ch: char) -> nat
    decreases s.len(),
{
    if s.len() == 0 {
        0
    } else {
        occurrences(s.drop_last(), ch) + if s.last() == ch {
            1nat
        } else {
            0nat
        }
    }
}

/// A text in which letters can be counted.
pub trait LettersCount {
    /// The characters of the text.
    spec fn letters(&self) -> Seq<char>;

    /// How often `ch` stands in the text.
    fn letters_count(&self, ch: char) -> (n: usize)
        ensures
            n == occurrences(self.letters(), ch),
    ;
}

impl LettersCount for str {
    open spec fn letters(&self) -> Seq<char> {
        self@
    }

    fn letters_count(&self, ch: char) -> (n: usize) {
        let chars = chars_of(self);
        let mut n: usize = 0;
        let mut i: usize = 0;
        assert(chars@.take(0) =~= Seq::<char>::empty());
        while i < chars.len()
            invariant
                i <= chars.len(),
                n <= i,
                n == occurrences(chars@.take(i as int), ch),
            decreases chars.len() - i,
        {
            assert(chars@.take(i + 1).drop_last() =~= chars@.take(i as int));
            if chars[i] == ch {
                n += 1;
            }
            i += 1;
        }
        assert(chars@.take(i as int) =~= chars@);
        n
    }
}

} // verus!
