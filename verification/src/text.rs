//! Labels from text: tags folded to lower case, and the distinct words of a
//! description.

use vstd::prelude::*;
use vstd::string::*;

verus! {

/// The lower-case form that `str::to_lowercase` gives for `text`.
pub uninterp spec fn lowercase_of(text: Seq<char>) -> Seq<char>;

/// Calls `str::to_lowercase`. Claimed of it: the result depends on the
/// characters of `text` alone.
#[verifier::external_body]
fn to_lowercase(text: &str) -> (lowered: String)
    ensures
        lowered@ == lowercase_of(text@),
{
    text.to_lowercase()
}

/// The texts of a sequence of strings.
pub open spec fn texts(words: Seq<String>) -> Seq<Seq<char>> {
    words.map_values(|w: String| w@)
}

/// A character that stays in a description: a space or a lower-case ASCII
/// letter.
pub open spec fn is_kept(c: char) -> bool {
    c == ' ' || ('a' <= c && c <= 'z')
}

/// `is_kept` as a predicate.
pub open spec fn kept() -> spec_fn(char) -> bool {
    |c: char| is_kept(c)
}

/// The pieces of `s` between its spaces: one more than it has spaces, empty
/// pieces included.
pub open spec fn split_on_space(s: Seq<char>) -> Seq<Seq<char>>
    decreases s.len(),
{
    if s.len() == 0 {
        seq![Seq::<char>::empty()]
    } else {
        let before = split_on_space(s.drop_last());
        if s.last() == ' ' {
            before.push(Seq::<char>::empty())
        } else {
            before.update(before.len() - 1, before.last().push(s.last()))
        }
    }
}

/// The items of `s` without repetition, each at the place of its first
/// occurrence.
pub open spec fn distinct<A>(s: Seq<A>) -> Seq<A>
    decreases s.len(),
{
    if s.len() == 0 {
        Seq::empty()
    } else {
        let before = distinct(s.drop_last());
        if before.contains(s.last()) {
            before
        } else {
            before.push(s.last())
        }
    }
}

/// The words of a text already in lower case: what is left of it after every
/// character but spaces and lower-case ASCII letters is taken out, split at
/// the spaces, each word once.
pub open spec fn words_of_lowered(lowered: Seq<char>) -> Seq<Seq<char>> {
    distinct(split_on_space(lowered.filter(kept())))
}

/// The words of a description.
pub open spec fn words_of(description: Seq<char>) -> Seq<Seq<char>> {
    words_of_lowered(lowercase_of(description))
}

/// No item occurs twice in `distinct(s)`, and it holds exactly the items of
/// `s`: however often a word is repeated, it is there once.
pub proof fn lemma_distinct_once(s: Seq<Seq<char>>)
    ensures
        distinct(s).no_duplicates(),
        forall|x: Seq<char>| #[trigger] distinct(s).contains(x) <==> s.contains(x),
        distinct(distinct(s)) == distinct(s),
{
    lemma_distinct_generic(s);
}

/// `lemma_distinct_once` for items of any type.
pub proof fn lemma_distinct_generic<A>(s: Seq<A>)
    ensures
        distinct(s).no_duplicates(),
        forall|x: A| #[trigger] distinct(s).contains(x) <==> s.contains(x),
        distinct(distinct(s)) == distinct(s),
        distinct(s).len() <= s.len(),
    decreases s.len(),
{
    if s.len() > 0 {
        let init = s.drop_last();
        let before = distinct(init);
        lemma_distinct_generic(init);
        assert forall|x: A| #[trigger] distinct(s).contains(x) <==> s.contains(x) by {
            assert(before.contains(x) <==> init.contains(x));
            assert(before.contains(s.last()) <==> init.contains(s.last()));
            if s.contains(x) {
                let i = choose|i: int| 0 <= i < s.len() && s[i] == x;
                if i < s.len() - 1 {
                    assert(init[i] == x);
                    assert(init.contains(x));
                    let j = choose|j: int| 0 <= j < before.len() && before[j] == x;
                    assert(distinct(s)[j] == x);
                } else if !before.contains(s.last()) {
                    assert(distinct(s)[before.len() as int] == x);
                } else {
                    let j = choose|j: int| 0 <= j < before.len() && before[j] == x;
                    assert(distinct(s)[j] == x);
                }
            }
            if distinct(s).contains(x) {
                let j = choose|j: int| 0 <= j < distinct(s).len() && distinct(s)[j] == x;
                if j < before.len() {
                    assert(before[j] == x);
                    assert(before.contains(x));
                    let i = choose|i: int| 0 <= i < init.len() && init[i] == x;
                    assert(s[i] == x);
                } else {
                    assert(s[s.len() - 1] == x);
                }
            }
        }
        lemma_distinct_fixed(distinct(s));
    } else {
        lemma_distinct_fixed(distinct(s));
    }
}

/// A sequence without repetition is its own `distinct`.
pub proof fn lemma_distinct_fixed<A>(s: Seq<A>)
    requires
        s.no_duplicates(),
    ensures
        distinct(s) == s,
    decreases s.len(),
{
    if s.len() > 0 {
        let init = s.drop_last();
        lemma_distinct_fixed(init);
        if init.contains(s.last()) {
            let i = choose|i: int| 0 <= i < init.len() && init[i] == s.last();
            assert(s[i] == s[s.len() - 1]);
        }
        assert(init.push(s.last()) =~= s);
    }
}

/// The tag as a label: in lower case, so that tags that differ in case only
/// are one label.
pub fn normalize_tag(tag: &str) -> (label: String)
    ensures
        label@ == lowercase_of(tag@),
{
    to_lowercase(tag)
}

/// The pieces between the spaces of what is left of `lowered` after every
/// character but spaces and lower-case ASCII letters is taken out.
pub fn strip_and_split(lowered: &str) -> (pieces: Vec<String>)
    ensures
        texts(pieces@) == split_on_space(lowered@.filter(kept())),
{
    let n: usize = lowered.unicode_len();
    let mut done: Vec<String> = Vec::new();
    let mut current: String = String::new();
    let mut i: usize = 0;
    proof {
        reveal(Seq::filter);
        assert(lowered@.take(0) =~= Seq::<char>::empty());
        assert(texts(done@).push(current@) =~= seq![Seq::<char>::empty()]);
    }
    while i < n
        invariant
            i <= n == lowered@.len(),
            texts(done@).push(current@) == split_on_space(lowered@.take(i as int).filter(kept())),
        decreases n - i,
    {
        let c: char = lowered.get_char(i);
        let ghost prefix = lowered@.take(i as int);
        let ghost stripped = prefix.filter(kept());
        let ghost before = texts(done@);
        let ghost word = current@;
        proof {
            reveal(Seq::filter);
            assert(lowered@.take(i + 1).drop_last() =~= prefix);
            assert(lowered@.take(i + 1).last() == c);
            assert(kept()(c) == is_kept(c));
            assert(stripped.push(c).drop_last() =~= stripped);
        }
        if c == ' ' {
            done.push(current);
            current = String::new();
            proof {
                assert(texts(done@) =~= before.push(word));
            }
        } else if 'a' <= c && c <= 'z' {
            let piece: &str = lowered.substring_char(i, i + 1);
            current.append(piece);
            proof {
                assert(piece@ =~= seq![c]);
                assert(current@ =~= word.push(c));
                assert(before.push(word).update(before.len() as int, word.push(c))
                    =~= before.push(current@));
            }
        }
        i += 1;
    }
    proof {
        assert(lowered@.take(n as int) =~= lowered@);
        assert(texts(done@.push(current)) =~= texts(done@).push(current@));
    }
    done.push(current);
    done
}

/// Whether `word` is among `list`.
pub fn contains_word(list: &Vec<String>, word: &String) -> (found: bool)
    ensures
        found == texts(list@).contains(word@),
{
    let mut j: usize = 0;
    while j < list.len()
        invariant
            j <= list.len(),
            forall|k: int| 0 <= k < j ==> texts(list@)[k] != word@,
        decreases list.len() - j,
    {
        if list[j] == *word {
            assert(texts(list@)[j as int] == word@);
            return true;
        }
        j += 1;
    }
    false
}

/// The words of `words` without repetition, each at the place of its first
/// occurrence.
pub fn distinct_words(words: &Vec<String>) -> (unique: Vec<String>)
    ensures
        texts(unique@) == distinct(texts(words@)),
{
    let mut unique: Vec<String> = Vec::new();
    let mut k: usize = 0;
    proof {
        assert(texts(words@).take(0) =~= Seq::<Seq<char>>::empty());
        assert(texts(unique@) =~= Seq::<Seq<char>>::empty());
    }
    while k < words.len()
        invariant
            k <= words.len(),
            texts(unique@) == distinct(texts(words@).take(k as int)),
        decreases words.len() - k,
    {
        let ghost before = texts(unique@);
        proof {
            assert(texts(words@).take(k + 1).drop_last() =~= texts(words@).take(k as int));
            assert(texts(words@).take(k + 1).last() == words@[k as int]@);
        }
        if !contains_word(&unique, &words[k]) {
            unique.push(words[k].clone());
            proof {
                assert(texts(unique@) =~= before.push(words@[k as int]@));
            }
        }
        k += 1;
    }
    proof {
        assert(texts(words@).take(k as int) =~= texts(words@));
    }
    unique
}

/// The words of a text already in lower case.
pub fn words_of_lowered_text(lowered: &str) -> (words: Vec<String>)
    ensures
        texts(words@) == words_of_lowered(lowered@),
{
    let pieces = strip_and_split(lowered);
    distinct_words(&pieces)
}

/// The words of a description: it is put in lower case, every character but
/// spaces and lower-case ASCII letters is taken out, and what is left is split
/// at the spaces; each word is given once.
pub fn description_words(description: &str) -> (words: Vec<String>)
    ensures
        texts(words@) == words_of(description@),
{
    let lowered = to_lowercase(description);
    words_of_lowered_text(lowered.as_str())
}

} // verus!
