//! WGSL tokenization and vocabulary management.

use vstd::prelude::*;

verus! {

use vstd::string::StringExecFns;

/// Special tokens reserved at the start of every vocabulary.
#[derive(Debug, Clone, Copy, PartialEq, Eq, Hash, Structural)]
pub enum SpecialToken {
    Padding,
    Unknown,
    StartOfSequence,
    EndOfSequence,
}

impl SpecialToken {
    /// The string form of the special token.
    pub fn as_str(&self) -> (r: &'static str)
        ensures
            r@ == spec_special_str(*self),
    {
        proof {
            reveal_strlit("<pad>");
            reveal_strlit("<unk>");
            reveal_strlit("<sos>");
            reveal_strlit("<eos>");
        }
        match self {
            SpecialToken::Padding => "<pad>",
            SpecialToken::Unknown => "<unk>",
            SpecialToken::StartOfSequence => "<sos>",
            SpecialToken::EndOfSequence => "<eos>",
        }
    }

    /// The reserved id of the special token.
    pub fn token_id(&self) -> (r: usize)
        ensures
            r == spec_special_id(*self),
    {
        match self {
            SpecialToken::Padding => 0,
            SpecialToken::Unknown => 1,
            SpecialToken::StartOfSequence => 2,
            SpecialToken::EndOfSequence => 3,
        }
    }
}

/// The string form of each special token.
pub open spec fn spec_special_str(t: SpecialToken) -> Seq<char> {
    match t {
        SpecialToken::Padding => "<pad>"@,
        SpecialToken::Unknown => "<unk>"@,
        SpecialToken::StartOfSequence => "<sos>"@,
        SpecialToken::EndOfSequence => "<eos>"@,
    }
}

/// The reserved id of each special token: padding 0, unknown 1, start 2, end 3.
pub open spec fn spec_special_id(t: SpecialToken) -> usize {
    match t {
        SpecialToken::Padding => 0usize,
        SpecialToken::Unknown => 1usize,
        SpecialToken::StartOfSequence => 2usize,
        SpecialToken::EndOfSequence => 3usize,
    }
}


// ---------------------------------------------------------------------------
// The tokenizer
// ---------------------------------------------------------------------------

/// What `str::to_lowercase` returns for a given character sequence; the
/// result depends on the characters alone.
pub uninterp spec fn lower_of(s: Seq<char>) -> Seq<char>;

/// Relies on str::to_lowercase: the result is a function of the input
/// characters alone, and an empty input stays empty.
#[verifier::external_body]
pub(crate) fn lowercase(s: &str) -> (r: String)
    ensures
        r@ == lower_of(s@),
        s@.len() == 0 ==> r@.len() == 0,
{
    s.to_lowercase()
}

/// The character sequence the scanner actually sees: the input itself, or
/// its lowercase form when the tokenizer lowercases.
pub open spec fn effective_text(s: Seq<char>, lower: bool) -> Seq<char> {
    if lower {
        lower_of(s)
    } else {
        s
    }
}

/// Index of the first occurrence of `t` in `v`, or `-1` if there is none.
pub open spec fn first_index(v: Seq<Seq<char>>, t: Seq<char>) -> int
    decreases v.len(),
{
    if v.len() == 0 {
        -1
    } else if v[0] == t {
        0
    } else {
        let r = first_index(v.drop_first(), t);
        if r == -1 {
            -1
        } else {
            r + 1
        }
    }
}

pub proof fn lemma_first_index(v: Seq<Seq<char>>, t: Seq<char>)
    ensures
        first_index(v, t) == -1 ==> forall|j: int| 0 <= j < v.len() ==> v[j] != t,
        first_index(v, t) != -1 ==> {
            let i = first_index(v, t);
            &&& 0 <= i < v.len()
            &&& v[i] == t
            &&& forall|j: int| 0 <= j < i ==> v[j] != t
        },
    decreases v.len(),
{
    if v.len() > 0 && v[0] != t {
        let vd = v.drop_first();
        lemma_first_index(vd, t);
        if first_index(v, t) == -1 {
            assert forall|j: int| 0 <= j < v.len() implies v[j] != t by {
                if j >= 1 {
                    assert(vd[j - 1] == v[j]);
                    assert(vd[j - 1] != t);
                }
            }
        } else {
            let i = first_index(v, t);
            assert(i == first_index(vd, t) + 1);
            assert(v[i] == vd[i - 1]);
            assert forall|j: int| 0 <= j < i implies v[j] != t by {
                if j >= 1 {
                    assert(vd[j - 1] == v[j]);
                    assert(vd[j - 1] != t);
                }
            }
        }
    }
}

/// The id a token encodes to: its first index in the vocabulary, or the
/// reserved unknown id when it is absent.
pub open spec fn encode_one(v: Seq<Seq<char>>, t: Seq<char>) -> usize {
    if first_index(v, t) == -1 {
        spec_special_id(SpecialToken::Unknown)
    } else {
        first_index(v, t) as usize
    }
}

/// The tokens a sequence of ids decodes to: each id that is a valid index
/// contributes its token, and every other id is dropped.
pub open spec fn decode_seq(v: Seq<Seq<char>>, ids: Seq<usize>) -> Seq<Seq<char>>
    decreases ids.len(),
{
    if ids.len() == 0 {
        Seq::empty()
    } else {
        let r = decode_seq(v, ids.drop_last());
        if ids.last() < v.len() {
            r.push(v[ids.last() as int])
        } else {
            r
        }
    }
}

/// A well-formed vocabulary: the four reserved tokens sit at ids 0 to 3
/// and no token occurs twice.
pub open spec fn vocab_wf(v: Seq<Seq<char>>) -> bool {
    &&& v.len() >= 4
    &&& v[0] == spec_special_str(SpecialToken::Padding)
    &&& v[1] == spec_special_str(SpecialToken::Unknown)
    &&& v[2] == spec_special_str(SpecialToken::StartOfSequence)
    &&& v[3] == spec_special_str(SpecialToken::EndOfSequence)
    &&& forall|i: int, j: int| 0 <= i < j < v.len() ==> v[i] != v[j]
}


/// Occurrences of `t` in the token stream `s`.
pub open spec fn count_occ(s: Seq<Seq<char>>, t: Seq<char>) -> nat
    decreases s.len(),
{
    if s.len() == 0 {
        0nat
    } else {
        count_occ(s.drop_last(), t) + (if s.last() == t {
            1nat
        } else {
            0nat
        })
    }
}

pub proof fn lemma_count_occ_le(s: Seq<Seq<char>>, t: Seq<char>)
    ensures
        count_occ(s, t) <= s.len(),
    decreases s.len(),
{
    if s.len() > 0 {
        lemma_count_occ_le(s.drop_last(), t);
    }
}

/// The distinct tokens of `s`, in order of first appearance.
pub open spec fn distinct_order(s: Seq<Seq<char>>) -> Seq<Seq<char>>
    decreases s.len(),
{
    if s.len() == 0 {
        Seq::empty()
    } else {
        let r = distinct_order(s.drop_last());
        if first_index(r, s.last()) == -1 {
            r.push(s.last())
        } else {
            r
        }
    }
}

/// `first_index` finds an occurrence exactly when one exists.
pub proof fn lemma_first_index_contains(v: Seq<Seq<char>>, t: Seq<char>)
    ensures
        (first_index(v, t) == -1) <==> !v.contains(t),
{
    lemma_first_index(v, t);
    if first_index(v, t) != -1 {
        assert(v[first_index(v, t)] == t);
    }
    if v.contains(t) {
        let w = choose|j: int| 0 <= j < v.len() && v[j] == t;
        assert(v[w] == t);
    }
}

/// The distinct tokens of a stream: pairwise distinct, and exactly the
/// tokens that occur in the stream.
pub proof fn lemma_distinct_order(s: Seq<Seq<char>>)
    ensures
        forall|i: int, j: int|
            0 <= i < j < distinct_order(s).len() ==> distinct_order(s)[i] != distinct_order(s)[j],
        forall|t: Seq<char>| #[trigger] distinct_order(s).contains(t) <==> count_occ(s, t) > 0,
    decreases s.len(),
{
    if s.len() > 0 {
        let sd = s.drop_last();
        let r = distinct_order(sd);
        lemma_distinct_order(sd);
        if first_index(r, s.last()) == -1 {
            lemma_first_index_contains(r, s.last());
            assert forall|i: int, j: int|
                0 <= i < j < distinct_order(s).len() implies distinct_order(s)[i]
                != distinct_order(s)[j] by {
                if j < r.len() {
                } else {
                    assert(distinct_order(s)[j] == s.last());
                    assert(distinct_order(s)[i] == r[i]);
                    assert(r.contains(r[i]));
                }
            }
            assert forall|t: Seq<char>| #[trigger]
                distinct_order(s).contains(t) implies count_occ(s, t) > 0 by {
                let w = choose|k: int| 0 <= k < distinct_order(s).len() && distinct_order(s)[k] == t;
                if w < r.len() {
                    assert(r.contains(t));
                } else {
                    assert(t == s.last());
                }
            }
            assert forall|t: Seq<char>| count_occ(s, t) > 0 implies #[trigger] distinct_order(
                s,
            ).contains(t) by {
                if t == s.last() {
                    assert(distinct_order(s)[r.len() as int] == t);
                } else {
                    assert(count_occ(sd, t) > 0);
                    assert(r.contains(t));
                    let w = choose|k: int| 0 <= k < r.len() && r[k] == t;
                    assert(distinct_order(s)[w] == t);
                }
            }
        } else {
            assert forall|t: Seq<char>| #[trigger]
                distinct_order(s).contains(t) implies count_occ(s, t) > 0 by {
                assert(r.contains(t));
            }
            assert forall|t: Seq<char>| count_occ(s, t) > 0 implies #[trigger] distinct_order(
                s,
            ).contains(t) by {
                if t == s.last() {
                    lemma_first_index_contains(r, s.last());
                } else {
                    assert(count_occ(sd, t) > 0);
                }
            }
        }
    }
}

/// A token is absent from a concatenation exactly when it is absent from
/// both parts.
pub proof fn lemma_first_index_concat(a: Seq<Seq<char>>, b: Seq<Seq<char>>, t: Seq<char>)
    ensures
        (first_index(a + b, t) == -1) <==> (first_index(a, t) == -1 && first_index(b, t) == -1),
{
    lemma_first_index(a, t);
    lemma_first_index(b, t);
    lemma_first_index(a + b, t);
    if first_index(a + b, t) == -1 {
        assert forall|j: int| 0 <= j < a.len() implies a[j] != t by {
            assert((a + b)[j] == a[j]);
        }
        assert forall|j: int| 0 <= j < b.len() implies b[j] != t by {
            assert((a + b)[a.len() + j] == b[j]);
        }
    } else {
        let i = first_index(a + b, t);
        assert((a + b)[i] == t);
        if i < a.len() {
            assert(a[i] == t);
        } else {
            assert(b[i - a.len()] == t);
        }
    }
}

/// The tokens a fitting pass appends to the vocabulary: the distinct
/// tokens of the corpus stream `keys`, kept in order, that meet the
/// frequency floor over `all` and are absent from the old vocabulary.
pub open spec fn added_tokens(
    keys: Seq<Seq<char>>,
    all: Seq<Seq<char>>,
    oldv: Seq<Seq<char>>,
    minf: int,
) -> Seq<Seq<char>>
    decreases keys.len(),
{
    if keys.len() == 0 {
        Seq::empty()
    } else {
        let r = added_tokens(keys.drop_last(), all, oldv, minf);
        if count_occ(all, keys.last()) >= minf && first_index(oldv, keys.last()) == -1 {
            r.push(keys.last())
        } else {
            r
        }
    }
}

/// Every appended token comes from `keys`.
pub proof fn lemma_added_tokens_subset(
    keys: Seq<Seq<char>>,
    all: Seq<Seq<char>>,
    oldv: Seq<Seq<char>>,
    minf: int,
    t: Seq<char>,
)
    requires
        added_tokens(keys, all, oldv, minf).contains(t),
    ensures
        keys.contains(t),
    decreases keys.len(),
{
    if keys.len() > 0 {
        let r = added_tokens(keys.drop_last(), all, oldv, minf);
        if t == keys.last() {
            assert(keys[keys.len() - 1] == t);
        } else {
            assert(r.contains(t));
            lemma_added_tokens_subset(keys.drop_last(), all, oldv, minf, t);
            let w = choose|k: int| 0 <= k < keys.drop_last().len() && keys.drop_last()[k] == t;
            assert(keys[w] == t);
        }
    }
}

/// The concatenated token stream of a corpus.
pub open spec fn corpus_tokens(texts: Seq<Seq<char>>, lower: bool) -> Seq<Seq<char>>
    decreases texts.len(),
{
    if texts.len() == 0 {
        Seq::empty()
    } else {
        corpus_tokens(texts.drop_last(), lower) + crate::lexer::tokenize_spec(
            effective_text(texts.last(), lower),
        )
    }
}


/// Tokens joined by single spaces.
pub open spec fn join_spaces(toks: Seq<Seq<char>>) -> Seq<char>
    decreases toks.len(),
{
    if toks.len() == 0 {
        Seq::empty()
    } else if toks.len() == 1 {
        toks[0]
    } else {
        join_spaces(toks.drop_last()) + " "@ + toks.last()
    }
}

/// First index of `t` in `v`, if present.
fn find_str(v: &Vec<String>, t: &String) -> (r: Option<usize>)
    ensures
        match r {
            Some(i) => first_index(v.deep_view(), t@) == i && i < v.deep_view().len(),
            None => first_index(v.deep_view(), t@) == -1,
        },
{
    let mut i: usize = 0;
    while i < v.len()
        invariant
            i <= v.deep_view().len(),
            forall|j: int| 0 <= j < i ==> v.deep_view()[j] != t@,
        decreases v.len() - i,
    {
        proof {
            assert(v.deep_view()[i as int] == v@[i as int]@);
        }
        if v[i] == *t {
            proof {
                lemma_first_index(v.deep_view(), t@);
            }
            return Some(i);
        }
        i += 1;
    }
    proof {
        lemma_first_index(v.deep_view(), t@);
    }
    None
}

/// WGSL tokenizer: a growable vocabulary over the fixed token grammar of
/// `crate::lexer`, with ids assigned in order of first appearance.
#[derive(Debug, Clone)]
pub struct WGSLTokenizer {
    /// The vocabulary; the token with id `i` sits at index `i`.
    pub vocab: Vec<String>,
    /// Maximum sequence length, consumed by the model, not the tokenizer.
    pub max_length: usize,
    /// Whether input text is lowercased before scanning.
    pub lowercase: bool,
}

impl WGSLTokenizer {
    /// The vocabulary as a sequence of character sequences.
    pub open spec fn vocab_view(&self) -> Seq<Seq<char>> {
        self.vocab.deep_view()
    }

    /// Well-formedness: reserved tokens in place, no duplicates.
    pub open spec fn wf(&self) -> bool {
        vocab_wf(self.vocab_view())
    }

    /// Creates a tokenizer whose vocabulary holds exactly the reserved
    /// special tokens.
    pub fn new(max_length: usize, lowercase: bool) -> (r: Self)
        ensures
            r.wf(),
            r.vocab_view() == seq![
                spec_special_str(SpecialToken::Padding),
                spec_special_str(SpecialToken::Unknown),
                spec_special_str(SpecialToken::StartOfSequence),
                spec_special_str(SpecialToken::EndOfSequence),
            ],
            r.max_length == max_length,
            r.lowercase == lowercase,
    {
        proof {
            reveal_strlit("<pad>");
            reveal_strlit("<unk>");
            reveal_strlit("<sos>");
            reveal_strlit("<eos>");
        }
        let mut vocab: Vec<String> = Vec::new();
        vocab.push(SpecialToken::Padding.as_str().to_string());
        vocab.push(SpecialToken::Unknown.as_str().to_string());
        vocab.push(SpecialToken::StartOfSequence.as_str().to_string());
        vocab.push(SpecialToken::EndOfSequence.as_str().to_string());
        let r = WGSLTokenizer { vocab, max_length, lowercase };
        proof {
            assert(r.vocab_view()[0] == r.vocab@[0]@);
            assert(r.vocab_view()[1] == r.vocab@[1]@);
            assert(r.vocab_view()[2] == r.vocab@[2]@);
            assert(r.vocab_view()[3] == r.vocab@[3]@);
            assert(r.vocab_view() =~= seq![
                spec_special_str(SpecialToken::Padding),
                spec_special_str(SpecialToken::Unknown),
                spec_special_str(SpecialToken::StartOfSequence),
                spec_special_str(SpecialToken::EndOfSequence),
            ]);
            assert(spec_special_str(SpecialToken::Padding)[1] == 'p');
            assert(spec_special_str(SpecialToken::Unknown)[1] == 'u');
            assert(spec_special_str(SpecialToken::StartOfSequence)[1] == 's');
            assert(spec_special_str(SpecialToken::EndOfSequence)[1] == 'e');
            assert(spec_special_str(SpecialToken::StartOfSequence)[2] == 'o');
            assert(spec_special_str(SpecialToken::EndOfSequence)[2] == 'o');
            assert(spec_special_str(SpecialToken::StartOfSequence)[3] == 's');
            assert(spec_special_str(SpecialToken::EndOfSequence)[3] == 's');
        }
        r
    }

    /// Scans `text` into tokens, lowercasing first when configured.
    pub fn tokenize(&self, text: &str) -> (toks: Vec<String>)
        ensures
            toks.deep_view() == crate::lexer::tokenize_spec(effective_text(text@, self.lowercase)),
    {
        if self.lowercase {
            let low = lowercase(text);
            crate::lexer::tokenize_str(low.as_str())
        } else {
            crate::lexer::tokenize_str(text)
        }
    }

    /// First index of `t` in the vocabulary, if present.
    fn find_token(&self, t: &String) -> (r: Option<usize>)
        ensures
            match r {
                Some(i) => first_index(self.vocab_view(), t@) == i && i < self.vocab_view().len(),
                None => first_index(self.vocab_view(), t@) == -1,
            },
    {
        find_str(&self.vocab, t)
    }

    /// Maps each token to its id, substituting the unknown id for tokens
    /// outside the vocabulary.
    pub fn encode(&self, tokens: &Vec<String>) -> (ids: Vec<usize>)
        ensures
            ids@.len() == tokens@.len(),
            forall|i: int|
                0 <= i < tokens@.len() ==> ids@[i] == encode_one(
                    self.vocab_view(),
                    tokens.deep_view()[i],
                ),
    {
        let mut ids: Vec<usize> = Vec::new();
        let mut i: usize = 0;
        while i < tokens.len()
            invariant
                i <= tokens@.len(),
                ids@.len() == i,
                forall|j: int|
                    0 <= j < i ==> ids@[j] == encode_one(self.vocab_view(), tokens.deep_view()[j]),
            decreases tokens.len() - i,
        {
            match self.find_token(&tokens[i]) {
                Some(id) => ids.push(id),
                None => ids.push(SpecialToken::Unknown.token_id()),
            }
            i += 1;
        }
        ids
    }

    /// Scans `text` and encodes the resulting tokens.
    pub fn encode_text(&self, text: &str) -> (ids: Vec<usize>)
        ensures
            ({
                let toks = crate::lexer::tokenize_spec(effective_text(text@, self.lowercase));
                &&& ids@.len() == toks.len()
                &&& forall|i: int|
                    0 <= i < toks.len() ==> ids@[i] == encode_one(self.vocab_view(), toks[i])
            }),
    {
        let tokens = self.tokenize(text);
        self.encode(&tokens)
    }

    /// Maps ids back to tokens, dropping ids with no mapping.
    pub fn decode(&self, ids: &Vec<usize>) -> (toks: Vec<String>)
        ensures
            toks.deep_view() == decode_seq(self.vocab_view(), ids@),
    {
        let mut toks: Vec<String> = Vec::new();
        let mut i: usize = 0;
        while i < ids.len()
            invariant
                i <= ids@.len(),
                toks.deep_view() == decode_seq(self.vocab_view(), ids@.take(i as int)),
            decreases ids.len() - i,
        {
            let ghost prev = toks.deep_view();
            if ids[i] < self.vocab.len() {
                toks.push(self.vocab[ids[i]].clone());
                proof {
                    assert(toks.deep_view() =~= prev.push(self.vocab_view()[ids@[i as int] as int]));
                }
            }
            proof {
                assert(ids@.take(i + 1).drop_last() =~= ids@.take(i as int));
                assert(ids@.take(i + 1).last() == ids@[i as int]);
            }
            i += 1;
        }
        proof {
            assert(ids@.take(ids@.len() as int) =~= ids@);
        }
        toks
    }


    /// The text a sequence of ids decodes to: the decoded tokens joined
    /// by single spaces.
    pub fn decode_to_text(&self, ids: &Vec<usize>) -> (r: String)
        ensures
            r@ == join_spaces(decode_seq(self.vocab_view(), ids@)),
    {
        let toks = self.decode(ids);
        let mut out = String::new();
        let mut i: usize = 0;
        while i < toks.len()
            invariant
                i <= toks@.len(),
                toks.deep_view() == decode_seq(self.vocab_view(), ids@),
                out@ == join_spaces(toks.deep_view().take(i as int)),
            decreases toks.len() - i,
        {
            proof {
                assert(toks.deep_view().take(i + 1).drop_last() =~= toks.deep_view().take(i as int));
                assert(toks.deep_view().take(i + 1).last() == toks.deep_view()[i as int]);
                assert(toks.deep_view()[i as int] == toks@[i as int]@);
            }
            if i > 0 {
                out.append(" ");
            }
            out.append(toks[i].as_str());
            i += 1;
        }
        proof {
            assert(toks.deep_view().take(toks@.len() as int) =~= toks.deep_view());
        }
        out
    }

    /// Scans every text of the corpus, counts token occurrences over the
    /// whole stream, and appends every distinct token that meets the
    /// frequency floor and is not in the vocabulary yet, in order of first
    /// appearance.
    pub fn fit(&mut self, texts: &Vec<String>, min_freq: usize)
        ensures
            final(self).max_length == old(self).max_length,
            final(self).lowercase == old(self).lowercase,
            final(self).vocab_view() == old(self).vocab_view() + added_tokens(
                distinct_order(corpus_tokens(texts.deep_view(), old(self).lowercase)),
                corpus_tokens(texts.deep_view(), old(self).lowercase),
                old(self).vocab_view(),
                min_freq as int,
            ),
    {
        let mut stream: Vec<String> = Vec::new();
        let mut i: usize = 0;
        while i < texts.len()
            invariant
                *self == *old(self),
                i <= texts@.len(),
                stream.deep_view() == corpus_tokens(
                    texts.deep_view().take(i as int),
                    old(self).lowercase,
                ),
            decreases texts.len() - i,
        {
            let toks = self.tokenize(texts[i].as_str());
            let ghost base = stream.deep_view();
            let mut k: usize = 0;
            while k < toks.len()
                invariant
                    k <= toks@.len(),
                    stream.deep_view() == base + toks.deep_view().take(k as int),
                decreases toks.len() - k,
            {
                let ghost prev = stream.deep_view();
                stream.push(toks[k].clone());
                proof {
                    assert(stream.deep_view() =~= prev.push(toks.deep_view()[k as int]));
                    assert(prev.push(toks.deep_view()[k as int]) =~= base + toks.deep_view().take(
                        k + 1,
                    ));
                }
                k += 1;
            }
            proof {
                assert(toks.deep_view().take(toks@.len() as int) =~= toks.deep_view());
                assert(texts.deep_view().take(i + 1).drop_last() =~= texts.deep_view().take(
                    i as int,
                ));
                assert(texts.deep_view().take(i + 1).last() == texts.deep_view()[i as int]);
                assert(texts@[i as int]@ == texts.deep_view()[i as int]);
            }
            i += 1;
        }
        proof {
            assert(texts.deep_view().take(texts@.len() as int) =~= texts.deep_view());
        }
        let ghost all = stream.deep_view();

        let mut keys: Vec<String> = Vec::new();
        let mut counts: Vec<usize> = Vec::new();
        let mut j: usize = 0;
        while j < stream.len()
            invariant
                *self == *old(self),
                j <= stream@.len(),
                all == stream.deep_view(),
                counts@.len() == keys.deep_view().len(),
                keys.deep_view() == distinct_order(all.take(j as int)),
                forall|k: int|
                    0 <= k < counts@.len() ==> counts@[k] == count_occ(
                        all.take(j as int),
                        keys.deep_view()[k],
                    ),
            decreases stream.len() - j,
        {
            let ghost prefix = all.take(j as int);
            let ghost t = all[j as int];
            proof {
                assert(all.take(j + 1).drop_last() =~= prefix);
                assert(all.take(j + 1).last() == t);
                assert(stream.deep_view()[j as int] == stream@[j as int]@);
                lemma_distinct_order(prefix);
            }
            match find_str(&keys, &stream[j]) {
                Some(p) => {
                    proof {
                        lemma_first_index(keys.deep_view(), t);
                        assert(keys.deep_view()[p as int] == t);
                        lemma_count_occ_le(prefix, t);
                    }
                    let ghost oldcounts = counts@;
                    counts[p] = counts[p] + 1;
                    proof {
                        assert(counts@ =~= oldcounts.update(p as int, (oldcounts[p as int]
                            + 1) as usize));
                        assert(keys.deep_view() == distinct_order(all.take(j + 1)));
                        assert forall|k: int|
                            0 <= k < counts@.len() implies counts@[k] == count_occ(
                            all.take(j + 1),
                            keys.deep_view()[k],
                        ) by {
                            if k == p {
                            } else {
                                assert(keys.deep_view()[k] != t);
                            }
                        }
                    }
                },
                None => {
                    proof {
                        lemma_first_index_contains(keys.deep_view(), t);
                        if count_occ(prefix, t) > 0 {
                            assert(distinct_order(prefix).contains(t));
                        }
                    }
                    let ghost oldkeys = keys.deep_view();
                    keys.push(stream[j].clone());
                    counts.push(1);
                    proof {
                        assert(keys.deep_view() =~= oldkeys.push(t));
                        assert(keys.deep_view() == distinct_order(all.take(j + 1)));
                        assert forall|k: int|
                            0 <= k < counts@.len() implies counts@[k] == count_occ(
                            all.take(j + 1),
                            keys.deep_view()[k],
                        ) by {
                            if k < counts@.len() - 1 {
                                assert(keys.deep_view()[k] == oldkeys[k]);
                                assert(oldkeys[k] != t);
                            } else {
                                assert(keys.deep_view()[k] == t);
                                assert(count_occ(prefix, t) == 0);
                            }
                        }
                    }
                },
            }
            j += 1;
        }
        proof {
            assert(all.take(stream@.len() as int) =~= all);
            lemma_distinct_order(all);
        }
        let ghost keys0 = keys.deep_view();
        let ghost oldv = old(self).vocab_view();

        let mut q: usize = 0;
        while q < keys.len()
            invariant
                q <= keys@.len(),
                keys.deep_view() == keys0,
                counts@.len() == keys0.len(),
                forall|k: int| 0 <= k < counts@.len() ==> counts@[k] == count_occ(all, keys0[k]),
                forall|k1: int, k2: int| 0 <= k1 < k2 < keys0.len() ==> keys0[k1] != keys0[k2],
                self.max_length == old(self).max_length,
                self.lowercase == old(self).lowercase,
                self.vocab.deep_view() == oldv + added_tokens(
                    keys0.take(q as int),
                    all,
                    oldv,
                    min_freq as int,
                ),
            decreases keys.len() - q,
        {
            let ghost t = keys0[q as int];
            let ghost addq = added_tokens(keys0.take(q as int), all, oldv, min_freq as int);
            proof {
                assert(keys0.take(q + 1).drop_last() =~= keys0.take(q as int));
                assert(keys0.take(q + 1).last() == t);
                assert(keys.deep_view()[q as int] == keys@[q as int]@);
                assert(counts@[q as int] == count_occ(all, t));
                lemma_first_index_contains(addq, t);
                if addq.contains(t) {
                    lemma_added_tokens_subset(keys0.take(q as int), all, oldv, min_freq as int, t);
                    let w = choose|w: int|
                        0 <= w < keys0.take(q as int).len() && keys0.take(q as int)[w] == t;
                    assert(keys0[w] == t);
                    assert(false);
                }
            }
            if counts[q] >= min_freq {
                match find_str(&self.vocab, &keys[q]) {
                    None => {
                        proof {
                            lemma_first_index_concat(oldv, addq, t);
                        }
                        let ghost prevv = self.vocab.deep_view();
                        self.vocab.push(keys[q].clone());
                        proof {
                            assert(self.vocab.deep_view() =~= prevv.push(t));
                            assert(prevv.push(t) =~= oldv + added_tokens(
                                keys0.take(q + 1),
                                all,
                                oldv,
                                min_freq as int,
                            ));
                        }
                    },
                    Some(_) => {
                        proof {
                            lemma_first_index_concat(oldv, addq, t);
                            assert(first_index(oldv, t) != -1);
                            assert(added_tokens(keys0.take(q + 1), all, oldv, min_freq as int)
                                =~= addq);
                        }
                    },
                }
            } else {
                proof {
                    assert(added_tokens(keys0.take(q + 1), all, oldv, min_freq as int) =~= addq);
                }
            }
            q += 1;
        }
        proof {
            assert(keys0.take(keys@.len() as int) =~= keys0);
        }
    }


    /// The saved form of this tokenizer: one text document holding the
    /// vocabulary, the maximum length and the lowercase flag.
    pub fn to_document(&self) -> (doc: String)
        ensures
            doc@ == crate::persist::emit_doc(
                self.vocab_view(),
                self.max_length as int,
                self.lowercase,
            ),
    {
        crate::persist::emit_document(&self.vocab, self.max_length, self.lowercase)
    }

    /// Restores a tokenizer from a saved document; the pattern set is
    /// fixed, so only the three persisted fields are read.
    pub fn from_document(doc: &str) -> (r: Option<WGSLTokenizer>)
        ensures
            match r {
                Some(t) => crate::persist::parse_doc(doc@) == Some(
                    (t.vocab_view(), t.max_length as int, t.lowercase),
                ),
                None => crate::persist::parse_doc(doc@) is None,
            },
    {
        match crate::persist::parse_document(doc) {
            Some(parts) => {
                let (vocab, max_length, lowercase) = parts;
                Some(WGSLTokenizer { vocab, max_length, lowercase })
            },
            None => None,
        }
    }

    /// Number of entries in the vocabulary.
    pub fn vocab_size(&self) -> (n: usize)
        ensures
            n == self.vocab_view().len(),
    {
        self.vocab.len()
    }
}


/// A token that occurs in `keys`, meets the floor, and is absent from the
/// old vocabulary is appended.
pub proof fn lemma_added_tokens_contains(
    keys: Seq<Seq<char>>,
    all: Seq<Seq<char>>,
    oldv: Seq<Seq<char>>,
    minf: int,
    t: Seq<char>,
)
    requires
        keys.contains(t),
        count_occ(all, t) >= minf,
        first_index(oldv, t) == -1,
    ensures
        added_tokens(keys, all, oldv, minf).contains(t),
    decreases keys.len(),
{
    let r = added_tokens(keys.drop_last(), all, oldv, minf);
    if t == keys.last() {
        assert(added_tokens(keys, all, oldv, minf) == r.push(t));
        assert(r.push(t)[r.len() as int] == t);
    } else {
        let w = choose|k: int| 0 <= k < keys.len() && keys[k] == t;
        assert(keys.drop_last()[w] == t);
        lemma_added_tokens_contains(keys.drop_last(), all, oldv, minf, t);
        let u = choose|k: int| 0 <= k < r.len() && r[k] == t;
        if count_occ(all, keys.last()) >= minf && first_index(oldv, keys.last()) == -1 {
            assert(added_tokens(keys, all, oldv, minf)[u] == t);
        }
    }
}

/// Every appended token was absent from the old vocabulary.
pub proof fn lemma_added_tokens_absent(
    keys: Seq<Seq<char>>,
    all: Seq<Seq<char>>,
    oldv: Seq<Seq<char>>,
    minf: int,
)
    ensures
        forall|k: int|
            0 <= k < added_tokens(keys, all, oldv, minf).len() ==> first_index(
                oldv,
                #[trigger] added_tokens(keys, all, oldv, minf)[k],
            ) == -1,
    decreases keys.len(),
{
    if keys.len() > 0 {
        let r = added_tokens(keys.drop_last(), all, oldv, minf);
        let a = added_tokens(keys, all, oldv, minf);
        lemma_added_tokens_absent(keys.drop_last(), all, oldv, minf);
        assert forall|k: int| 0 <= k < a.len() implies first_index(oldv, #[trigger] a[k])
            == -1 by {
            if k < r.len() {
                assert(a[k] == r[k]);
            } else {
                assert(a[k] == keys.last());
            }
        }
    }
}

/// With pairwise-distinct keys the appended tokens are pairwise distinct.
pub proof fn lemma_added_tokens_distinct(
    keys: Seq<Seq<char>>,
    all: Seq<Seq<char>>,
    oldv: Seq<Seq<char>>,
    minf: int,
)
    requires
        forall|k1: int, k2: int| 0 <= k1 < k2 < keys.len() ==> keys[k1] != keys[k2],
    ensures
        forall|k1: int, k2: int|
            0 <= k1 < k2 < added_tokens(keys, all, oldv, minf).len() ==> added_tokens(
                keys,
                all,
                oldv,
                minf,
            )[k1] != added_tokens(keys, all, oldv, minf)[k2],
    decreases keys.len(),
{
    if keys.len() > 0 {
        let kd = keys.drop_last();
        let r = added_tokens(kd, all, oldv, minf);
        lemma_added_tokens_distinct(kd, all, oldv, minf);
        if count_occ(all, keys.last()) >= minf && first_index(oldv, keys.last()) == -1 {
            assert forall|k1: int, k2: int|
                0 <= k1 < k2 < r.push(keys.last()).len() implies r.push(keys.last())[k1] != r.push(
                keys.last(),
            )[k2] by {
                if k2 == r.len() {
                    if r.contains(r[k1]) && r[k1] == keys.last() {
                    }
                    if r[k1] == keys.last() {
                        lemma_added_tokens_subset(kd, all, oldv, minf, r[k1]);
                        let w = choose|w: int| 0 <= w < kd.len() && kd[w] == r[k1];
                        assert(keys[w] == keys.last());
                        assert(keys[w] == keys[keys.len() - 1]);
                        assert(false);
                    }
                }
            }
        }
    }
}

/// Law: fitting preserves vocabulary well-formedness — the reserved
/// tokens keep their ids and no token occurs twice.
pub proof fn lemma_fit_preserves_wf(oldv: Seq<Seq<char>>, all: Seq<Seq<char>>, minf: int)
    requires
        vocab_wf(oldv),
    ensures
        vocab_wf(oldv + added_tokens(distinct_order(all), all, oldv, minf)),
{
    let keys = distinct_order(all);
    let added = added_tokens(keys, all, oldv, minf);
    let newv = oldv + added;
    lemma_distinct_order(all);
    lemma_added_tokens_distinct(keys, all, oldv, minf);
    lemma_added_tokens_absent(keys, all, oldv, minf);
    assert(newv[0] == oldv[0]);
    assert(newv[1] == oldv[1]);
    assert(newv[2] == oldv[2]);
    assert(newv[3] == oldv[3]);
    assert forall|i: int, j: int| 0 <= i < j < newv.len() implies newv[i] != newv[j] by {
        if i < oldv.len() && j >= oldv.len() {
            assert(newv[j] == added[j - oldv.len()]);
            assert(first_index(oldv, added[j - oldv.len()]) == -1);
            lemma_first_index(oldv, added[j - oldv.len()]);
            assert(newv[i] == oldv[i]);
        } else if i >= oldv.len() {
            assert(newv[i] == added[i - oldv.len()]);
            assert(newv[j] == added[j - oldv.len()]);
        }
    }
}

/// Law: after fitting, every token that occurs in the corpus stream with
/// at least the configured frequency is present in the vocabulary.
pub proof fn lemma_fit_covers_frequent(
    oldv: Seq<Seq<char>>,
    all: Seq<Seq<char>>,
    minf: int,
    t: Seq<char>,
)
    requires
        count_occ(all, t) >= minf,
        count_occ(all, t) >= 1,
    ensures
        ({
            let newv = oldv + added_tokens(distinct_order(all), all, oldv, minf);
            &&& first_index(newv, t) != -1
            &&& newv[first_index(newv, t)] == t
        }),
{
    let keys = distinct_order(all);
    let added = added_tokens(keys, all, oldv, minf);
    let newv = oldv + added;
    lemma_distinct_order(all);
    assert(keys.contains(t));
    lemma_first_index(newv, t);
    if first_index(oldv, t) == -1 {
        lemma_added_tokens_contains(keys, all, oldv, minf, t);
        let u = choose|k: int| 0 <= k < added.len() && added[k] == t;
        assert(newv[oldv.len() + u] == t);
        lemma_first_index_contains(newv, t);
        assert(newv.contains(t));
    } else {
        lemma_first_index(oldv, t);
        let u = first_index(oldv, t);
        assert(newv[u] == t);
        lemma_first_index_contains(newv, t);
        assert(newv.contains(t));
    }
}

/// Law: in a well-formed vocabulary, a token encodes to the unknown id
/// exactly when it is absent or is the unknown token itself.
pub proof fn lemma_encode_unknown(v: Seq<Seq<char>>, t: Seq<char>)
    requires
        vocab_wf(v),
        v.len() <= usize::MAX,
    ensures
        (encode_one(v, t) == spec_special_id(SpecialToken::Unknown)) <==> (first_index(v, t) == -1
            || t == spec_special_str(SpecialToken::Unknown)),
{
    lemma_first_index(v, t);
    if first_index(v, t) != -1 {
        let i = first_index(v, t);
        assert(v[i] == t);
        if i == 1 {
            assert(t == spec_special_str(SpecialToken::Unknown));
        }
        if t == spec_special_str(SpecialToken::Unknown) {
            assert(v[1] == t);
            if i == 0 {
                assert(v[0] == v[1]);
                assert(false);
            }
            if i > 1 {
                assert(v[1] != t);
                assert(false);
            }
        }
    }
}

/// Law: a token that never occurs in the corpus stream and was absent
/// from the vocabulary before fitting still encodes to the unknown id
/// afterwards.
pub proof fn lemma_fit_unseen_stays_unknown(
    oldv: Seq<Seq<char>>,
    all: Seq<Seq<char>>,
    minf: int,
    t: Seq<char>,
)
    requires
        count_occ(all, t) == 0,
        first_index(oldv, t) == -1,
    ensures
        encode_one(oldv + added_tokens(distinct_order(all), all, oldv, minf), t)
            == spec_special_id(SpecialToken::Unknown),
{
    let keys = distinct_order(all);
    let added = added_tokens(keys, all, oldv, minf);
    let newv = oldv + added;
    lemma_distinct_order(all);
    lemma_first_index_contains(keys, t);
    lemma_first_index_concat(oldv, added, t);
    lemma_first_index_contains(added, t);
    if added.contains(t) {
        lemma_added_tokens_subset(keys, all, oldv, minf, t);
        assert(count_occ(all, t) > 0);
        assert(false);
    }
}


/// Law: saving a tokenizer and loading the saved document restores the
/// vocabulary — its size and every mapping between strings and ids — and
/// the configuration exactly.
pub proof fn lemma_save_load_roundtrip(t: WGSLTokenizer)
    requires
        t.vocab_view().len() <= usize::MAX,
        forall|k: int|
            0 <= k < t.vocab_view().len() ==> (#[trigger] t.vocab_view()[k]).len() <= usize::MAX,
    ensures
        crate::persist::parse_doc(
            crate::persist::emit_doc(t.vocab_view(), t.max_length as int, t.lowercase),
        ) == Some((t.vocab_view(), t.max_length as int, t.lowercase)),
{
    crate::persist::lemma_document_roundtrip(t.vocab_view(), t.max_length as int, t.lowercase);
}


/// No scanned token is the literal unknown marker: a token beginning
/// with an angle bracket can only be an operator run, and the marker
/// holds letters no operator run can.
proof fn lemma_class_token_not_unknown(s: Seq<char>, pos: int, l: int)
    requires
        0 <= pos,
        crate::lexer::class_at(s, pos) == Some(l),
        1 <= l,
        pos + l <= s.len(),
    ensures
        s.subrange(pos, pos + l) != spec_special_str(SpecialToken::Unknown),
{
    reveal_strlit("<unk>");
    reveal_strlit("align");
    reveal_strlit("array");
    reveal_strlit("atomic");
    reveal_strlit("binding");
    reveal_strlit("break");
    reveal_strlit("builtin");
    reveal_strlit("case");
    reveal_strlit("compute");
    reveal_strlit("const");
    reveal_strlit("continue");
    reveal_strlit("default");
    reveal_strlit("discard");
    reveal_strlit("else");
    reveal_strlit("fn");
    reveal_strlit("for");
    reveal_strlit("fragment");
    reveal_strlit("group");
    reveal_strlit("if");
    reveal_strlit("interpolate");
    reveal_strlit("let");
    reveal_strlit("location");
    reveal_strlit("loop");
    reveal_strlit("mat");
    reveal_strlit("ptr");
    reveal_strlit("return");
    reveal_strlit("sampler");
    reveal_strlit("sampler_comparison");
    reveal_strlit("size");
    reveal_strlit("stage");
    reveal_strlit("struct");
    reveal_strlit("switch");
    reveal_strlit("texture_");
    reveal_strlit("texture_2d_array");
    reveal_strlit("texture_cube");
    reveal_strlit("texture_storage_");
    reveal_strlit("type");
    reveal_strlit("var");
    reveal_strlit("vec");
    reveal_strlit("vertex");
    reveal_strlit("while");
    reveal_strlit("workgroup_size");
    let t = s.subrange(pos, pos + l);
    assert(t[0] == s[pos]);
    if t == spec_special_str(SpecialToken::Unknown) {
        assert(s[pos] == '<');
        assert(t.len() == 5);
        assert(t[1] == 'u');
        assert(s[pos + 1] == 'u');
        // no class but the operator run accepts an angle bracket first
        assert(crate::lexer::type_at(s, pos) is None);
        assert(crate::lexer::attr_at(s, pos) is None);
        assert(crate::lexer::keyword_at(s, pos) is None);
        assert(crate::lexer::number_at(s, pos) is None);
        assert(crate::lexer::punct_at(s, pos) is None);
        // so the match is the maximal operator run, whose characters are
        // all operator characters; `u` is not one
        assert(crate::lexer::op_at(s, pos) == Some(l));
        let e = crate::lexer::run_end(s, pos, crate::lexer::op_cls());
        crate::lexer::lemma_run_end_chars(s, pos, crate::lexer::op_cls());
        assert(e == pos + l);
        assert(crate::lexer::is_op_char(s[pos + 1]));
        assert(false);
    }
}

/// No token of a scanned text is the literal unknown marker.
pub proof fn lemma_tokens_not_unknown(s: Seq<char>, pos: int)
    requires
        0 <= pos,
    ensures
        forall|i: int|
            0 <= i < crate::lexer::tok_from(s, pos).len() ==> #[trigger] crate::lexer::tok_from(
                s,
                pos,
            )[i] != spec_special_str(SpecialToken::Unknown),
    decreases s.len() - pos, 0int,
{
    if pos >= s.len() {
    } else if crate::lexer::is_ws(s[pos]) {
        lemma_tokens_not_unknown(s, pos + 1);
    } else {
        match crate::lexer::class_at(s, pos) {
            Some(l) => {
                if 1 <= l && pos + l <= s.len() {
                    lemma_class_token_not_unknown(s, pos, l);
                    lemma_tokens_not_unknown(s, pos + l);
                    let toks = crate::lexer::tok_from(s, pos);
                    let rest = crate::lexer::tok_from(s, pos + l);
                    assert forall|i: int| 0 <= i < toks.len() implies #[trigger] toks[i]
                        != spec_special_str(SpecialToken::Unknown) by {
                        if i == 0 {
                        } else {
                            assert(toks[i] == rest[i - 1]);
                        }
                    }
                } else {
                    lemma_tokens_not_unknown(s, pos + 1);
                }
            },
            None => {
                lemma_tokens_not_unknown(s, pos + 1);
            },
        }
    }
    if pos < s.len() && crate::lexer::tok_from(s, pos) == crate::lexer::tok_from(s, pos + 1) {
        let a = crate::lexer::tok_from(s, pos);
        let b = crate::lexer::tok_from(s, pos + 1);
        assert forall|i: int| 0 <= i < a.len() implies #[trigger] a[i] != spec_special_str(
            SpecialToken::Unknown,
        ) by {
            assert(a[i] == b[i]);
        }
    }
}

/// A token counted in a stream occurs in it.
pub proof fn lemma_count_occ_contains(s: Seq<Seq<char>>, t: Seq<char>)
    ensures
        (count_occ(s, t) > 0) <==> s.contains(t),
    decreases s.len(),
{
    if s.len() > 0 {
        lemma_count_occ_contains(s.drop_last(), t);
        if count_occ(s, t) > 0 {
            if s.last() == t {
                assert(s[s.len() - 1] == t);
            } else {
                let w = choose|j: int| 0 <= j < s.drop_last().len() && s.drop_last()[j] == t;
                assert(s[w] == t);
            }
        }
        if s.contains(t) {
            let w = choose|j: int| 0 <= j < s.len() && s[j] == t;
            if w < s.len() - 1 {
                assert(s.drop_last()[w] == t);
            }
        }
    }
}

/// No token of a corpus stream is the literal unknown marker.
pub proof fn lemma_corpus_not_unknown(texts: Seq<Seq<char>>, lower: bool, t: Seq<char>)
    requires
        count_occ(corpus_tokens(texts, lower), t) > 0,
    ensures
        t != spec_special_str(SpecialToken::Unknown),
    decreases texts.len(),
{
    lemma_count_occ_contains(corpus_tokens(texts, lower), t);
    let all = corpus_tokens(texts, lower);
    let w = choose|j: int| 0 <= j < all.len() && all[j] == t;
    let head = corpus_tokens(texts.drop_last(), lower);
    let tail = crate::lexer::tokenize_spec(effective_text(texts.last(), lower));
    if w < head.len() {
        assert(head[w] == t);
        lemma_count_occ_contains(head, t);
        lemma_corpus_not_unknown(texts.drop_last(), lower, t);
    } else {
        assert(tail[w - head.len()] == t);
        lemma_tokens_not_unknown(effective_text(texts.last(), lower), 0);
    }
}

/// Law: after fitting on a corpus, every token of the corpus stream that
/// meets the frequency floor encodes to an id other than the unknown id.
pub proof fn lemma_fit_frequent_never_unknown(
    oldv: Seq<Seq<char>>,
    texts: Seq<Seq<char>>,
    lower: bool,
    minf: int,
    t: Seq<char>,
)
    requires
        vocab_wf(oldv),
        ({
            let all = corpus_tokens(texts, lower);
            let newv = oldv + added_tokens(distinct_order(all), all, oldv, minf);
            newv.len() <= usize::MAX
        }),
        count_occ(corpus_tokens(texts, lower), t) >= minf,
        count_occ(corpus_tokens(texts, lower), t) >= 1,
    ensures
        ({
            let all = corpus_tokens(texts, lower);
            let newv = oldv + added_tokens(distinct_order(all), all, oldv, minf);
            encode_one(newv, t) != spec_special_id(SpecialToken::Unknown)
        }),
{
    let all = corpus_tokens(texts, lower);
    let newv = oldv + added_tokens(distinct_order(all), all, oldv, minf);
    lemma_corpus_not_unknown(texts, lower, t);
    lemma_fit_covers_frequent(oldv, all, minf, t);
    lemma_fit_preserves_wf(oldv, all, minf);
    lemma_encode_unknown(newv, t);
}


/// Law: decoding the ids that a sequence of in-vocabulary tokens encodes
/// to restores the token sequence exactly; with unknown tokens or
/// unmapped ids the two directions are deliberately not inverses.
pub proof fn lemma_decode_of_encoded(v: Seq<Seq<char>>, toks: Seq<Seq<char>>, ids: Seq<usize>)
    requires
        v.len() <= usize::MAX,
        ids.len() == toks.len(),
        forall|i: int| 0 <= i < toks.len() ==> first_index(v, #[trigger] toks[i]) != -1,
        forall|i: int| 0 <= i < ids.len() ==> #[trigger] ids[i] == encode_one(v, toks[i]),
    ensures
        decode_seq(v, ids) == toks,
    decreases ids.len(),
{
    if ids.len() > 0 {
        lemma_decode_of_encoded(v, toks.drop_last(), ids.drop_last());
        lemma_first_index(v, toks.last());
        assert(toks[toks.len() - 1] == toks.last());
        assert(ids[ids.len() - 1] == encode_one(v, toks.last()));
        assert(v[first_index(v, toks.last())] == toks.last());
        assert(decode_seq(v, ids) =~= toks);
    } else {
        assert(decode_seq(v, ids) =~= toks);
    }
}

} // verus!
