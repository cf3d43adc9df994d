//! Splitting the text before the cursor into the words of the command line.
//!
//! The text is split on runs of ASCII whitespace. A space immediately before
//! the cursor starts a new, still-empty word, and an empty text counts as one
//! empty word, so the word list is never empty and its last entry is the word
//! currently being typed.

use vstd::prelude::*;

verus! {

/// The characters that `str::split_ascii_whitespace` treats as separators.
pub open spec fn is_word_sep(c: char) -> bool {
    c == ' ' || c == '\t' || c == '\n' || c == '\u{0C}' || c == '\r'
}

/// The words of `s` after the (possibly empty) word `cur` that is already in
/// progress: the maximal runs of non-whitespace characters, in order.
pub open spec fn split_ws_acc(s: Seq<char>, cur: Seq<char>) -> Seq<Seq<char>>
    decreases s.len(),
{
    if s.len() == 0 {
        if cur.len() == 0 {
            Seq::empty()
        } else {
            seq![cur]
        }
    } else if is_word_sep(s[0]) {
        if cur.len() == 0 {
            split_ws_acc(s.drop_first(), Seq::empty())
        } else {
            seq![cur] + split_ws_acc(s.drop_first(), Seq::empty())
        }
    } else {
        split_ws_acc(s.drop_first(), cur.push(s[0]))
    }
}

/// The whitespace-separated words of `s`, in order, all non-empty.
pub open spec fn split_ws(s: Seq<char>) -> Seq<Seq<char>> {
    split_ws_acc(s, Seq::empty())
}

/// The word list that tokenization yields: the whitespace-separated words of
/// `s`, plus one empty word when `s` ends in a space (the cursor sits at the
/// start of a new word), and a single empty word when nothing else remains.
pub open spec fn words_of(s: Seq<char>) -> Seq<Seq<char>> {
    let base = if s.len() > 0 && s.last() == ' ' {
        split_ws(s).push(Seq::empty())
    } else {
        split_ws(s)
    };
    if base.len() == 0 {
        seq![Seq::<char>::empty()]
    } else {
        base
    }
}

/// Every word that splitting yields fits inside the split text together with
/// the word already in progress.
proof fn lemma_split_ws_acc_word_len(s: Seq<char>, cur: Seq<char>)
    ensures
        forall|i: int|
            0 <= i < split_ws_acc(s, cur).len() ==> (#[trigger] split_ws_acc(s, cur)[i]).len()
                <= s.len() + cur.len(),
    decreases s.len(),
{
    let out = split_ws_acc(s, cur);
    if s.len() == 0 {
        if cur.len() > 0 {
            assert(out[0] == cur);
        }
    } else if is_word_sep(s[0]) {
        lemma_split_ws_acc_word_len(s.drop_first(), Seq::empty());
        let rest = split_ws_acc(s.drop_first(), Seq::empty());
        if cur.len() == 0 {
            assert(out == rest);
        } else {
            assert(out == seq![cur] + rest);
            assert forall|i: int| 0 <= i < out.len() implies (#[trigger] out[i]).len() <= s.len()
                + cur.len() by {
                if i == 0 {
                    assert(out[0] == cur);
                } else {
                    assert(out[i] == rest[i - 1]);
                }
            }
        }
    } else {
        lemma_split_ws_acc_word_len(s.drop_first(), cur.push(s[0]));
        assert(out == split_ws_acc(s.drop_first(), cur.push(s[0])));
        assert(s.drop_first().len() + cur.push(s[0]).len() == s.len() + cur.len());
    }
}

/// No word of the tokenization is longer than the tokenized text.
pub proof fn lemma_words_of_word_len(s: Seq<char>)
    ensures
        forall|i: int|
            0 <= i < words_of(s).len() ==> (#[trigger] words_of(s)[i]).len() <= s.len(),
{
    lemma_split_ws_acc_word_len(s, Seq::empty());
}

/// The (possibly empty) word in progress at offset `i` of `s`.
spec fn cur_word(s: Seq<char>, in_word: bool, start: int, i: int) -> Seq<char> {
    if in_word {
        s.subrange(start, i)
    } else {
        Seq::empty()
    }
}

/// Whether `c` separates words.
fn is_sep(c: char) -> (r: bool)
    ensures
        r == is_word_sep(c),
{
    c == ' ' || c == '\t' || c == '\n' || c == '\u{0C}' || c == '\r'
}

/// Splits the text before the cursor into words, appending one empty word
/// when the text ends in a space and falling back to a single empty word.
pub fn get_words(line_before_cursor: &str) -> (r: Vec<String>)
    ensures
        r.deep_view() == words_of(line_before_cursor@),
        r@.len() >= 1,
{
    let ghost s = line_before_cursor@;
    let n = line_before_cursor.unicode_len();
    let mut words: Vec<String> = Vec::new();
    let mut start: usize = 0;
    let mut in_word: bool = false;
    let mut i: usize = 0;
    proof {
        assert(s.skip(0) =~= s);
        assert(words.deep_view() =~= Seq::<Seq<char>>::empty());
        assert(Seq::<Seq<char>>::empty() + split_ws(s) =~= split_ws(s));
    }
    while i < n
        invariant
            n == s.len(),
            s == line_before_cursor@,
            i <= n,
            in_word ==> start < i,
            words.deep_view() + split_ws_acc(
                s.skip(i as int),
                cur_word(s, in_word, start as int, i as int),
            ) == split_ws(s),
        decreases n - i,
    {
        let ghost cur = cur_word(s, in_word, start as int, i as int);
        proof {
            assert(s.skip(i as int).len() == n - i);
            assert(s.skip(i as int)[0] == s[i as int]);
            assert(s.skip(i as int).drop_first() =~= s.skip(i + 1));
        }
        let c = line_before_cursor.get_char(i);
        if is_sep(c) {
            if in_word {
                let w = line_before_cursor.substring_char(start, i);
                let ghost prev = words.deep_view();
                words.push(String::from_str(w));
                in_word = false;
                proof {
                    assert(words.deep_view() =~= prev.push(cur));
                    assert(split_ws_acc(s.skip(i as int), cur) == seq![cur] + split_ws_acc(
                        s.skip(i + 1),
                        Seq::empty(),
                    ));
                    assert(prev.push(cur) + split_ws_acc(s.skip(i + 1), Seq::empty()) =~= prev + (
                    seq![cur] + split_ws_acc(s.skip(i + 1), Seq::empty())));
                }
            }
        } else {
            if !in_word {
                start = i;
                in_word = true;
                proof {
                    assert(cur_word(s, true, i as int, i + 1) =~= cur.push(s[i as int]));
                }
            } else {
                proof {
                    assert(cur_word(s, true, start as int, i + 1) =~= cur.push(s[i as int]));
                }
            }
        }
        i += 1;
    }
    proof {
        assert(s.skip(n as int) =~= Seq::<char>::empty());
    }
    if in_word {
        let w = line_before_cursor.substring_char(start, n);
        let ghost prev = words.deep_view();
        words.push(String::from_str(w));
        proof {
            let cur = cur_word(s, true, start as int, n as int);
            assert(words.deep_view() =~= prev.push(cur));
            assert(prev.push(cur) =~= prev + seq![cur]);
        }
    } else {
        proof {
            assert(words.deep_view() + Seq::<Seq<char>>::empty() =~= words.deep_view());
        }
    }
    assert(words.deep_view() == split_ws(s));
    if n > 0 && line_before_cursor.get_char(n - 1) == ' ' {
        let ghost prev = words.deep_view();
        words.push(String::new());
        proof {
            assert(words.deep_view() =~= prev.push(Seq::<char>::empty()));
        }
    }
    if words.len() == 0 {
        words.push(String::new());
        proof {
            assert(words.deep_view() =~= seq![Seq::<char>::empty()]);
        }
    }
    words
}

} // verus!
