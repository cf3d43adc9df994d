//! Case-insensitive substring matching of vocabulary candidates against a
//! partially typed word.

use vstd::prelude::*;

verus! {

/// The character sequence that `str::to_lowercase` produces for `s`.
pub uninterp spec fn lower_of(s: Seq<char>) -> Seq<char>;

/// Relies on `str::to_lowercase`: the result depends on the characters alone,
/// and an empty string stays empty.
#[verifier::external_body]
fn to_lower(s: &str) -> (r: String)
    ensures
        r@ == lower_of(s@),
        s@.len() == 0 ==> r@.len() == 0,
{
    s.to_lowercase()
}

/// `needle` occurs contiguously somewhere inside `hay`.
pub open spec fn contains_seq(hay: Seq<char>, needle: Seq<char>) -> bool {
    exists|k: int|
        0 <= k && k + needle.len() <= hay.len() && #[trigger] hay.subrange(k, k + needle.len())
            == needle
}

/// A vocabulary candidate survives the filter when its lowercased form
/// contains the lowercased partial word as a substring.
pub open spec fn candidate_matches(cand: Seq<char>, partial: Seq<char>) -> bool {
    contains_seq(lower_of(cand), lower_of(partial))
}

/// The subsequence of `vocab` whose entries match `partial`, in order.
pub open spec fn matching_candidates(vocab: Seq<Seq<char>>, partial: Seq<char>) -> Seq<Seq<char>> {
    vocab.filter(|cand: Seq<char>| candidate_matches(cand, partial))
}

/// Decides `contains_seq(hay@, needle@)` by scanning every start offset.
pub fn contains_substr(hay: &str, needle: &str) -> (r: bool)
    ensures
        r == contains_seq(hay@, needle@),
{
    let hay_len = hay.unicode_len();
    let needle_len = needle.unicode_len();
    if needle_len > hay_len {
        return false;
    }
    let mut i: usize = 0;
    while i <= hay_len - needle_len
        invariant
            needle_len <= hay_len,
            hay_len == hay@.len(),
            needle_len == needle@.len(),
            i <= hay_len - needle_len + 1,
            forall|k: int|
                0 <= k < i ==> #[trigger] hay@.subrange(k, k + needle@.len() as int) != needle@,
        decreases hay_len - needle_len - i + 1,
    {
        let mut j: usize = 0;
        let mut ok: bool = true;
        while j < needle_len
            invariant
                needle_len <= hay_len,
                hay_len == hay@.len(),
                needle_len == needle@.len(),
                i <= hay_len - needle_len,
                j <= needle_len,
                ok ==> forall|l: int| 0 <= l < j ==> hay@[i + l] == needle@[l],
                !ok ==> exists|l: int| 0 <= l < needle@.len() && hay@[i + l] != needle@[l],
            decreases needle_len - j,
        {
            if hay.get_char(i + j) != needle.get_char(j) {
                ok = false;
            }
            j += 1;
        }
        if ok {
            assert(hay@.subrange(i as int, i + needle@.len() as int) =~= needle@);
            return true;
        }
        proof {
            let l = choose|l: int| 0 <= l < needle@.len() && hay@[i + l] != needle@[l];
            assert(hay@.subrange(i as int, i + needle@.len() as int)[l] == hay@[i + l]);
        }
        i += 1;
    }
    assert forall|k: int|
        0 <= k && k + needle@.len() <= hay@.len() implies #[trigger] hay@.subrange(
        k,
        k + needle@.len() as int,
    ) != needle@ by {
        assert(k < i);
    }
    false
}

/// An empty partial word matches every candidate.
proof fn lemma_empty_partial_matches(cand: Seq<char>, partial: Seq<char>, lowered: Seq<char>)
    requires
        partial.len() == 0,
        lowered == lower_of(partial),
        lowered.len() == 0,
    ensures
        candidate_matches(cand, partial),
{
    let lc = lower_of(cand);
    let lp = lower_of(partial);
    assert(lc.subrange(0, 0 + lp.len() as int) =~= lp);
    assert(contains_seq(lc, lp));
}

/// Returns the candidates whose lowercased text contains the lowercased
/// `word` as a substring, in the order given; an empty `word` keeps them all.
pub fn find_substr_filter(word: &str, candidates: Vec<&str>) -> (r: Vec<String>)
    ensures
        r.deep_view() == matching_candidates(candidates.deep_view(), word@),
        word@.len() == 0 ==> r.deep_view() == candidates.deep_view(),
{
    let ghost cand_views = candidates.deep_view();
    let word_lower = to_lower(word);
    let mut out: Vec<String> = Vec::new();
    let mut idx: usize = 0;
    while idx < candidates.len()
        invariant
            candidates.deep_view() == cand_views,
            cand_views.len() == candidates@.len(),
            idx <= candidates@.len(),
            word_lower@ == lower_of(word@),
            word@.len() == 0 ==> word_lower@.len() == 0,
            out.deep_view() == matching_candidates(cand_views.take(idx as int), word@),
            word@.len() == 0 ==> out.deep_view() == cand_views.take(idx as int),
        decreases candidates@.len() - idx,
    {
        let cand: &str = candidates[idx];
        let cand_lower = to_lower(cand);
        let matched = contains_substr(cand_lower.as_str(), word_lower.as_str());
        let ghost prev = out.deep_view();
        proof {
            reveal_with_fuel(Seq::<_>::filter, 2);
            assert(cand_views[idx as int] == cand@);
            let single = seq![cand@];
            assert(cand_views.take(idx + 1) =~= cand_views.take(idx as int) + single);
            Seq::filter_distributes_over_add(
                cand_views.take(idx as int),
                single,
                |c: Seq<char>| candidate_matches(c, word@),
            );
            assert(single.drop_last() =~= Seq::<Seq<char>>::empty());
            assert(single.last() == cand@);
            if word@.len() == 0 {
                lemma_empty_partial_matches(cand@, word@, word_lower@);
            }
            if candidate_matches(cand@, word@) {
                assert(single.filter(|c: Seq<char>| candidate_matches(c, word@)) =~= single);
            } else {
                assert(single.filter(|c: Seq<char>| candidate_matches(c, word@))
                    =~= Seq::<Seq<char>>::empty());
            }
        }
        if matched {
            out.push(String::from_str(cand));
            proof {
                assert(out.deep_view() =~= prev.push(cand@));
                assert(prev.push(cand@) =~= prev + seq![cand@]);
            }
        }
        idx += 1;
    }
    proof {
        assert(cand_views.take(candidates@.len() as int) =~= cand_views);
    }
    out
}

/// When no entry of `vocab` matches `partial`, the filtered result is empty —
/// an absent match yields an empty suggestion list, not an error.
pub proof fn lemma_no_match_empty(vocab: Seq<Seq<char>>, partial: Seq<char>)
    requires
        forall|i: int| 0 <= i < vocab.len() ==> !candidate_matches(#[trigger] vocab[i], partial),
    ensures
        matching_candidates(vocab, partial) == Seq::<Seq<char>>::empty(),
    decreases vocab.len(),
{
    reveal(Seq::filter);
    if vocab.len() == 0 {
        assert(matching_candidates(vocab, partial) =~= Seq::<Seq<char>>::empty());
    } else {
        assert(forall|i: int|
            0 <= i < vocab.drop_last().len() ==> !candidate_matches(
                #[trigger] vocab.drop_last()[i],
                partial,
            ));
        lemma_no_match_empty(vocab.drop_last(), partial);
        assert(!candidate_matches(vocab.last(), partial));
    }
}

} // verus!
