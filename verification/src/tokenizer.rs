//! Whitespace tokenizer over an indexed vocabulary.
//!
//! A word's token is its index in the vocabulary; an unknown word falls back
//! to the token of the `<UNK>` marker.  Decoding maps a token back to its
//! word — or to `<UNK>` when it is out of range — and joins the words with
//! single spaces.

use crate::text::str_eq;
use vstd::prelude::*;
use vstd::string::StrSliceExecFns;
use vstd::string::StringExecFns;

verus! {

/// A token separator: ASCII whitespace.
pub open spec fn is_space(c: char) -> bool {
    c == ' ' || c == '\t' || c == '\n' || c == '\r'
}

/// The end of the word starting at `i`: the first position at or after `i`
/// holding whitespace, or the end of the text.
pub open spec fn word_end(s: Seq<char>, i: int) -> int
    decreases s.len() - i,
{
    if i < 0 || i >= s.len() || is_space(s[i]) {
        i
    } else {
        word_end(s, i + 1)
    }
}

/// `word_end` stays within the text, moves only forward, and stops exactly
/// at the first whitespace.
pub proof fn lemma_word_end(s: Seq<char>, i: int)
    requires
        0 <= i <= s.len(),
    ensures
        i <= word_end(s, i) <= s.len(),
        forall|k: int| i <= k < word_end(s, i) ==> !is_space(s[k]),
        word_end(s, i) == s.len() || is_space(s[word_end(s, i)]),
    decreases s.len() - i,
{
    if i < s.len() && !is_space(s[i]) {
        lemma_word_end(s, i + 1);
    }
}

#[via_fn]
proof fn words_from_decreases(s: Seq<char>, i: int) {
    if 0 <= i && i < s.len() && !is_space(s[i]) {
        lemma_word_end(s, i);
    }
}

/// The words of `s` from position `i` on: the maximal runs of
/// non-whitespace characters, in order.
pub open spec fn words_from(s: Seq<char>, i: int) -> Seq<Seq<char>>
    decreases s.len() - i,
        via words_from_decreases
{
    if i < 0 || i >= s.len() {
        Seq::empty()
    } else if is_space(s[i]) {
        words_from(s, i + 1)
    } else {
        seq![s.subrange(i, word_end(s, i))] + words_from(s, word_end(s, i))
    }
}

/// The views of the vocabulary's words.
pub open spec fn vocab_view(vocab: Seq<String>) -> Seq<Seq<char>> {
    vocab.map_values(|w: String| w@)
}

/// First index of `w` in the vocabulary, or `-1`.
pub open spec fn find_word(vs: Seq<Seq<char>>, w: Seq<char>) -> int
    decreases vs.len(),
{
    if vs.len() == 0 {
        -1
    } else if vs[0] == w {
        0
    } else {
        let r = find_word(vs.drop_first(), w);
        if r < 0 {
            -1
        } else {
            r + 1
        }
    }
}

/// `find_word` finds exactly the first occurrence of `w`.
pub proof fn lemma_find_word(vs: Seq<Seq<char>>, w: Seq<char>)
    ensures
        find_word(vs, w) >= 0 ==> find_word(vs, w) < vs.len() && vs[find_word(vs, w)] == w && (
        forall|k: int| 0 <= k < find_word(vs, w) ==> vs[k] != w),
        find_word(vs, w) < 0 ==> (forall|k: int| 0 <= k < vs.len() ==> vs[k] != w),
    decreases vs.len(),
{
    if vs.len() == 0 {
    } else if vs[0] == w {
    } else {
        let tail = vs.drop_first();
        lemma_find_word(tail, w);
        if find_word(vs, w) >= 0 {
            assert forall|k: int| 0 <= k < find_word(vs, w) implies vs[k] != w by {
                if k >= 1 {
                    assert(tail[k - 1] == vs[k]);
                    assert(tail[k - 1] != w);
                }
            }
        } else {
            assert forall|k: int| 0 <= k < vs.len() implies vs[k] != w by {
                if k >= 1 {
                    assert(tail[k - 1] == vs[k]);
                    assert(tail[k - 1] != w);
                }
            }
        }
    }
}

/// The marker word every unknown word falls back to.
pub open spec fn unk() -> Seq<char> {
    "<UNK>"@
}

/// The token of `w`: its first index in the vocabulary, or the first index
/// of the `<UNK>` marker when absent.
pub open spec fn token_of(vs: Seq<Seq<char>>, w: Seq<char>) -> int {
    if find_word(vs, w) >= 0 {
        find_word(vs, w)
    } else {
        find_word(vs, unk())
    }
}

/// The word a token decodes to: the vocabulary entry it indexes, or the
/// `<UNK>` marker when out of range.
pub open spec fn word_of_token(vs: Seq<Seq<char>>, t: int) -> Seq<char> {
    if 0 <= t < vs.len() {
        vs[t]
    } else {
        unk()
    }
}

/// The words joined with single spaces.
pub open spec fn joined(ws: Seq<Seq<char>>) -> Seq<char>
    decreases ws.len(),
{
    if ws.len() == 0 {
        Seq::empty()
    } else if ws.len() == 1 {
        ws[0]
    } else {
        joined(ws.drop_last()) + seq![' '] + ws.last()
    }
}

/// Whitespace tokenizer: a word's token is its vocabulary index.
pub struct Tokenizer {
    pub vocab: Vec<String>,
}

impl Tokenizer {
    /// Every token fits in an `i64`.
    pub open spec fn wf(self) -> bool {
        self.vocab@.len() < 0x8000_0000_0000_0000
    }

    /// An empty vocabulary.
    pub fn new() -> (t: Tokenizer)
        ensures
            t.vocab@ =~= Seq::<String>::empty(),
            t.wf(),
    {
        Tokenizer { vocab: Vec::new() }
    }

    /// Appends one word to the vocabulary; its token is the previous
    /// vocabulary size.  An earlier occurrence of the same word keeps
    /// priority when encoding.
    pub fn add_word(&mut self, word: String)
        requires
            old(self).wf(),
            old(self).vocab@.len() + 1 < 0x8000_0000_0000_0000,
        ensures
            final(self).wf(),
            final(self).vocab@ == old(self).vocab@.push(word),
    {
        self.vocab.push(word);
    }

    /// First vocabulary index of `w`, front to back.
    fn lookup(&self, w: &str) -> (r: Option<usize>)
        ensures
            match r {
                Some(k) => k < self.vocab@.len() && find_word(vocab_view(self.vocab@), w@)
                    == k,
                None => find_word(vocab_view(self.vocab@), w@) < 0,
            },
    {
        let ghost vs = vocab_view(self.vocab@);
        let mut k: usize = 0;
        while k < self.vocab.len()
            invariant
                vs == vocab_view(self.vocab@),
                k <= vs.len(),
                vs.len() == self.vocab@.len(),
                forall|j: int| 0 <= j < k ==> vs[j] != w@,
            decreases vs.len() - k,
        {
            if str_eq(self.vocab[k].as_str(), w) {
                proof {
                    assert(vs[k as int] == self.vocab@[k as int]@);
                    lemma_find_word(vs, w@);
                    if find_word(vs, w@) < 0 {
                        assert(vs[k as int] != w@);
                        assert(false);
                    }
                    if find_word(vs, w@) < k as int {
                        assert(vs[find_word(vs, w@)] == w@);
                        assert(false);
                    }
                    if find_word(vs, w@) > k as int {
                        assert(vs[k as int] != w@);
                        assert(false);
                    }
                }
                return Some(k);
            }
            k = k + 1;
        }
        proof {
            lemma_find_word(vs, w@);
        }
        None
    }

    /// Splits `text` on whitespace and maps each word to its token: its
    /// first vocabulary index, or the `<UNK>` marker's index when absent.
    /// The caller guarantees what the fallback needs: every word is in the
    /// vocabulary, or the marker is.
    pub fn encode(&self, text: &str) -> (r: Vec<i64>)
        requires
            self.wf(),
            find_word(vocab_view(self.vocab@), unk()) >= 0 || (forall|k: int|
                0 <= k < words_from(text@, 0).len() ==> find_word(
                    vocab_view(self.vocab@),
                    #[trigger] words_from(text@, 0)[k],
                ) >= 0),
        ensures
            r@.len() == words_from(text@, 0).len(),
            forall|k: int|
                0 <= k < r@.len() ==> r@[k] == token_of(
                    vocab_view(self.vocab@),
                    words_from(text@, 0)[k],
                ),
    {
        let ghost t = text@;
        let ghost vs = vocab_view(self.vocab@);
        let ghost words = words_from(t, 0);
        let n = text.unicode_len();
        let mut toks: Vec<i64> = Vec::new();
        let mut i: usize = 0;
        while i < n
            invariant
                self.wf(),
                t == text@,
                vs == vocab_view(self.vocab@),
                words == words_from(t, 0),
                find_word(vs, unk()) >= 0 || (forall|k: int|
                    0 <= k < words.len() ==> find_word(vs, #[trigger] words[k]) >= 0),
                n == t.len(),
                i <= n,
                toks@.len() <= words.len(),
                words_from(t, i as int) == words.skip(toks@.len() as int),
                forall|k: int| 0 <= k < toks@.len() ==> toks@[k] == token_of(vs, words[k]),
            decreases n - i,
        {
            let c = text.get_char(i);
            if is_space_char(c) {
                i = i + 1;
            } else {
                let ghost we = word_end(t, i as int);
                proof {
                    lemma_word_end(t, i as int);
                }
                let mut j = i + 1;
                proof {
                    assert(word_end(t, i as int) == word_end(t, i as int + 1));
                }
                while j < n && !is_space_char(text.get_char(j))
                    invariant
                        t == text@,
                        n == t.len(),
                        i < j <= n,
                        we == word_end(t, i as int),
                        we == word_end(t, j as int),
                    decreases n - j,
                {
                    proof {
                        assert(word_end(t, j as int) == word_end(t, j as int + 1));
                    }
                    j = j + 1;
                }
                proof {
                    assert(we == j as int);
                }
                let word = text.substring_char(i, j);
                let ghost w = t.subrange(i as int, j as int);
                proof {
                    let ghost rest = words_from(t, j as int);
                    let ghost ell = toks@.len() as int;
                    assert(words_from(t, i as int) == seq![w] + rest);
                    assert(words.skip(ell) == seq![w] + rest);
                    assert(words.skip(ell).len() == words.len() - ell);
                    assert((seq![w] + rest).len() == 1 + rest.len());
                    assert(ell < words.len());
                    assert(words.skip(ell)[0] == w);
                    assert(words[ell] == w);
                    assert forall|k: int| 0 <= k < rest.len() implies rest[k] == words.skip(
                        ell + 1,
                    )[k] by {
                        assert(rest[k] == (seq![w] + rest)[k + 1]);
                        assert(words.skip(ell)[k + 1] == words[ell + 1 + k]);
                        assert(words.skip(ell + 1)[k] == words[ell + 1 + k]);
                    }
                    assert(rest =~= words.skip(ell + 1));
                }
                let token: i64 = match self.lookup(word) {
                    Some(k) => k as i64,
                    None => {
                        match self.lookup("<UNK>") {
                            Some(u) => u as i64,
                            None => {
                                proof {
                                    assert(false);
                                }
                                0
                            },
                        }
                    },
                };
                proof {
                    assert(token == token_of(vs, w));
                }
                toks.push(token);
                i = j;
            }
        }
        proof {
            assert(words_from(t, n as int) =~= Seq::<Seq<char>>::empty());
            assert(words.skip(toks@.len() as int) =~= Seq::<Seq<char>>::empty());
            assert(toks@.len() == words.len());
        }
        toks
    }

    /// Maps each token back to its word — the vocabulary entry it indexes,
    /// or `<UNK>` when out of range — and joins the words with single
    /// spaces.
    pub fn decode(&self, tokens: &[i64]) -> (r: String)
        requires
            self.wf(),
        ensures
            r@ == joined(
                tokens@.map_values(|t: i64| word_of_token(vocab_view(self.vocab@), t as int)),
            ),
    {
        let ghost vs = vocab_view(self.vocab@);
        let ghost ws = tokens@.map_values(|t: i64| word_of_token(vs, t as int));
        let mut r = String::new();
        let mut i: usize = 0;
        while i < tokens.len()
            invariant
                self.wf(),
                vs == vocab_view(self.vocab@),
                ws == tokens@.map_values(|t: i64| word_of_token(vs, t as int)),
                ws.len() == tokens@.len(),
                i <= tokens@.len(),
                r@ == joined(ws.take(i as int)),
            decreases tokens@.len() - i,
        {
            if i > 0 {
                r.append(" ");
            }
            let t = tokens[i];
            if 0 <= t && t < self.vocab.len() as i64 {
                r.append(self.vocab[t as usize].as_str());
            } else {
                r.append("<UNK>");
            }
            proof {
                assert(ws[i as int] == word_of_token(vs, tokens@[i as int] as int));
                assert(ws.take(i as int + 1).drop_last() =~= ws.take(i as int));
                assert(ws.take(i as int + 1).last() == ws[i as int]);
                if i == 0 {
                    reveal_strlit(" ");
                    assert(r@ =~= joined(ws.take(1)));
                } else {
                    reveal_strlit(" ");
                    assert(" "@ =~= seq![' ']);
                    assert(r@ =~= joined(ws.take(i as int)) + seq![' '] + ws[i as int]);
                    assert(r@ =~= joined(ws.take(i as int + 1)));
                }
            }
            i = i + 1;
        }
        proof {
            assert(ws.take(tokens@.len() as int) =~= ws);
        }
        r
    }
}

/// Whether `c` separates tokens.
fn is_space_char(c: char) -> (r: bool)
    ensures
        r == is_space(c),
{
    c == ' ' || c == '\t' || c == '\n' || c == '\r'
}

} // verus!
