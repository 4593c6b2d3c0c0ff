//! The tokenizer's persistence format.
//!
//! A saved tokenizer is one text document: the maximum length, the
//! lowercase flag, the entry count, and then one length-prefixed line per
//! vocabulary entry. Length prefixes make escaping unnecessary: an entry
//! may contain any character, including newlines. Parsing a saved
//! document restores every field exactly; `lemma_document_roundtrip`
//! proves it.

use vstd::prelude::*;

verus! {

use crate::lexer::{run_end, digit_cls, is_digit, lit_at};

/// The digit character for a value below ten.
pub open spec fn digit_char_of(d: int) -> char {
    if d == 0 {
        '0'
    } else if d == 1 {
        '1'
    } else if d == 2 {
        '2'
    } else if d == 3 {
        '3'
    } else if d == 4 {
        '4'
    } else if d == 5 {
        '5'
    } else if d == 6 {
        '6'
    } else if d == 7 {
        '7'
    } else if d == 8 {
        '8'
    } else {
        '9'
    }
}

/// The value of a digit character, `-1` for any other character.
pub open spec fn char_digit_of(c: char) -> int {
    if c == '0' {
        0
    } else if c == '1' {
        1
    } else if c == '2' {
        2
    } else if c == '3' {
        3
    } else if c == '4' {
        4
    } else if c == '5' {
        5
    } else if c == '6' {
        6
    } else if c == '7' {
        7
    } else if c == '8' {
        8
    } else if c == '9' {
        9
    } else {
        -1
    }
}

/// The decimal form of a non-negative value, most significant digit first.
pub open spec fn dec_digits(n: int) -> Seq<char>
    decreases n,
{
    if n < 10 {
        seq![digit_char_of(n)]
    } else {
        dec_digits(n / 10).push(digit_char_of(n % 10))
    }
}

/// The value of a digit sequence, most significant digit first.
pub open spec fn digits_val(d: Seq<char>) -> int
    decreases d.len(),
{
    if d.len() == 0 {
        0
    } else {
        digits_val(d.drop_last()) * 10 + char_digit_of(d.last())
    }
}

/// Decimal digits are non-empty, are all digit characters, and evaluate
/// back to the value they were made from.
pub proof fn lemma_dec_digits(n: int)
    requires
        n >= 0,
    ensures
        dec_digits(n).len() >= 1,
        forall|k: int| 0 <= k < dec_digits(n).len() ==> is_digit(#[trigger] dec_digits(n)[k]),
        digits_val(dec_digits(n)) == n,
    decreases n,
{
    if n < 10 {
        let d = dec_digits(n);
        assert(d =~= seq![digit_char_of(n)]);
        assert(d.drop_last() =~= Seq::<char>::empty());
        assert(digits_val(d.drop_last()) == 0);
        assert(d.last() == digit_char_of(n));
        assert(char_digit_of(digit_char_of(n)) == n);
        assert(digits_val(d) == digits_val(d.drop_last()) * 10 + char_digit_of(d.last()));
        assert(digits_val(d) == n);
    } else {
        lemma_dec_digits(n / 10);
        let d = dec_digits(n);
        assert(d == dec_digits(n / 10).push(digit_char_of(n % 10)));
        assert(d.drop_last() =~= dec_digits(n / 10));
        assert forall|k: int| 0 <= k < d.len() implies is_digit(#[trigger] d[k]) by {
            if k < d.len() - 1 {
                assert(d[k] == dec_digits(n / 10)[k]);
            }
        }
        assert(char_digit_of(digit_char_of(n % 10)) == n % 10);
        assert(n / 10 * 10 + n % 10 == n) by (nonlinear_arith)
            requires
                n >= 10,
        ;
        assert(d.last() == digit_char_of(n % 10));
        assert(digits_val(d) == digits_val(dec_digits(n / 10)) * 10 + char_digit_of(d.last()));
        assert(digits_val(dec_digits(n / 10)) == n / 10);
        assert(digits_val(d) == n / 10 * 10 + n % 10);
        assert(digits_val(d) == n);
    }
}

/// Appends the decimal digits of `n` to `out`.
fn push_dec(out: &mut Vec<char>, n: usize)
    ensures
        final(out)@ == old(out)@ + dec_digits(n as int),
    decreases n,
{
    if n < 10 {
        let c: char = match n {
            0 => '0',
            1 => '1',
            2 => '2',
            3 => '3',
            4 => '4',
            5 => '5',
            6 => '6',
            7 => '7',
            8 => '8',
            _ => '9',
        };
        out.push(c);
        proof {
            assert(out@ =~= old(out)@ + dec_digits(n as int));
        }
    } else {
        push_dec(out, n / 10);
        let d = n % 10;
        let c: char = match d {
            0 => '0',
            1 => '1',
            2 => '2',
            3 => '3',
            4 => '4',
            5 => '5',
            6 => '6',
            7 => '7',
            8 => '8',
            _ => '9',
        };
        out.push(c);
        proof {
            assert(out@ =~= old(out)@ + dec_digits(n as int));
        }
    }
}


// ---------------------------------------------------------------------------
// Emitting
// ---------------------------------------------------------------------------

/// One vocabulary entry in the document: character count, one space, the
/// characters themselves, a newline. The length prefix makes escaping
/// unnecessary: an entry may contain any character, newlines included.
pub open spec fn entry_doc(t: Seq<char>) -> Seq<char> {
    dec_digits(t.len() as int) + " "@ + t + "\n"@
}

/// The entries of `v` from index `i` on, concatenated.
pub open spec fn entries_from(v: Seq<Seq<char>>, i: int) -> Seq<char>
    decreases v.len() - i,
{
    if i < 0 || i >= v.len() {
        Seq::empty()
    } else {
        entry_doc(v[i]) + entries_from(v, i + 1)
    }
}

/// The saved form of a tokenizer: maximum length, lowercase flag, entry
/// count, then one line per entry.
pub open spec fn emit_doc(v: Seq<Seq<char>>, ml: int, lb: bool) -> Seq<char> {
    "maxlen "@ + dec_digits(ml) + "\n"@ + "lower "@ + (if lb {
        "1"@
    } else {
        "0"@
    }) + "\n"@ + "count "@ + dec_digits(v.len() as int) + "\n"@ + entries_from(v, 0)
}

/// Relies on String::from_iter: collecting characters yields the string
/// of exactly those characters in order.
#[verifier::external_body]
fn string_from_chars(v: &Vec<char>) -> (s: String)
    ensures
        s@ == v@,
{
    v.iter().copied().collect()
}

/// Appends every character of `w` to `out`.
fn push_chars(out: &mut Vec<char>, w: &Vec<char>)
    ensures
        final(out)@ == old(out)@ + w@,
{
    let mut i: usize = 0;
    while i < w.len()
        invariant
            i <= w@.len(),
            out@ == old(out)@ + w@.take(i as int),
        decreases w.len() - i,
    {
        out.push(w[i]);
        proof {
            assert(old(out)@ + w@.take(i + 1) =~= (old(out)@ + w@.take(i as int)).push(
                w@[i as int],
            ));
        }
        i += 1;
    }
    proof {
        assert(old(out)@ + w@.take(w@.len() as int) =~= old(out)@ + w@);
    }
}

/// Appends every character of the literal `w` to `out`.
fn push_lit(out: &mut Vec<char>, w: &str)
    ensures
        final(out)@ == old(out)@ + w@,
{
    let wc = crate::lexer::chars_of(w);
    push_chars(out, &wc)
}

/// Builds the saved form of a vocabulary and its settings.
pub fn emit_document(vocab: &Vec<String>, max_length: usize, lower: bool) -> (doc: String)
    ensures
        doc@ == emit_doc(vocab.deep_view(), max_length as int, lower),
{
    proof {
        reveal_strlit("1");
        reveal_strlit("0");
        reveal_strlit("\n");
        reveal_strlit(" ");
    }
    let mut out: Vec<char> = Vec::new();
    push_lit(&mut out, "maxlen ");
    push_dec(&mut out, max_length);
    out.push('\n');
    push_lit(&mut out, "lower ");
    if lower {
        out.push('1');
    } else {
        out.push('0');
    }
    out.push('\n');
    push_lit(&mut out, "count ");
    push_dec(&mut out, vocab.len());
    out.push('\n');
    let ghost v = vocab.deep_view();
    proof {
        assert(out@ + entries_from(v, 0) =~= emit_doc(v, max_length as int, lower));
    }
    let mut i: usize = 0;
    while i < vocab.len()
        invariant
            i <= vocab@.len(),
            v == vocab.deep_view(),
            out@ + entries_from(v, i as int) == emit_doc(v, max_length as int, lower),
        decreases vocab.len() - i,
    {
        proof {
            reveal_strlit("\n");
            reveal_strlit(" ");
        }
        let ghost before = out@;
        let tc = crate::lexer::chars_of(vocab[i].as_str());
        push_dec(&mut out, tc.len());
        out.push(' ');
        push_chars(&mut out, &tc);
        out.push('\n');
        proof {
            assert(tc@ == v[i as int]);
            assert(out@ =~= before + entry_doc(v[i as int]));
            assert(before + (entry_doc(v[i as int]) + entries_from(v, i + 1)) =~= (before
                + entry_doc(v[i as int])) + entries_from(v, i + 1));
        }
        i += 1;
    }
    proof {
        assert(out@ + entries_from(v, vocab@.len() as int) =~= out@);
    }
    string_from_chars(&out)
}


// ---------------------------------------------------------------------------
// Parsing
// ---------------------------------------------------------------------------

/// Digit sequences have non-negative values.
pub proof fn lemma_digits_val_nonneg(d: Seq<char>)
    requires
        forall|k: int| 0 <= k < d.len() ==> is_digit(#[trigger] d[k]),
    ensures
        digits_val(d) >= 0,
    decreases d.len(),
{
    if d.len() > 0 {
        lemma_digits_val_nonneg(d.drop_last());
        assert(is_digit(d.last()));
        assert(char_digit_of(d.last()) >= 0);
    }
}

/// A prefix of a digit sequence has a value no larger than the whole.
pub proof fn lemma_digits_val_prefix(d: Seq<char>, m: int)
    requires
        forall|k: int| 0 <= k < d.len() ==> is_digit(#[trigger] d[k]),
        0 <= m <= d.len(),
    ensures
        digits_val(d.take(m)) <= digits_val(d),
    decreases d.len() - m,
{
    if m < d.len() {
        lemma_digits_val_prefix(d, m + 1);
        let dm = d.take(m);
        let dm1 = d.take(m + 1);
        assert(dm1.drop_last() =~= dm);
        assert(dm1.last() == d[m]);
        assert forall|k: int| 0 <= k < dm.len() implies is_digit(#[trigger] dm[k]) by {
            assert(dm[k] == d[k]);
        }
        lemma_digits_val_nonneg(dm);
        assert(is_digit(d[m]));
        assert(char_digit_of(d[m]) >= 0);
        assert(digits_val(dm1) == digits_val(dm) * 10 + char_digit_of(d[m]));
        assert(digits_val(dm) * 10 >= digits_val(dm));
    } else {
        assert(d.take(m) =~= d);
    }
}

/// The value and end of the digit run starting at `p`, if non-empty.
pub open spec fn parse_nat_at(s: Seq<char>, p: int) -> Option<(int, int)> {
    let e = run_end(s, p, digit_cls());
    if e == p {
        None
    } else {
        Some((digits_val(s.subrange(p, e)), e))
    }
}

/// The value of a digit character.
fn char_digit(c: char) -> (d: u32)
    requires
        is_digit(c),
    ensures
        d == char_digit_of(c),
{
    match c {
        '0' => 0,
        '1' => 1,
        '2' => 2,
        '3' => 3,
        '4' => 4,
        '5' => 5,
        '6' => 6,
        '7' => 7,
        '8' => 8,
        _ => 9,
    }
}

/// Reads the decimal number starting at `p`; fails when no digit is
/// there or the value does not fit the machine word.
fn parse_nat(cs: &Vec<char>, p: usize) -> (r: Option<(usize, usize)>)
    requires
        p <= cs@.len(),
    ensures
        match r {
            Some(pair) => parse_nat_at(cs@, p as int) == Some((pair.0 as int, pair.1 as int))
                && p < pair.1 <= cs@.len(),
            None => match parse_nat_at(cs@, p as int) {
                Some(pair) => pair.0 > usize::MAX,
                None => true,
            },
        },
{
    let e = crate::lexer::digit_run(cs, p);
    if e == p {
        return None;
    }
    proof {
        crate::lexer::lemma_run_end_chars(cs@, p as int, digit_cls());
    }
    let mut acc: usize = 0;
    let mut k: usize = p;
    while k < e
        invariant
            p <= k <= e <= cs@.len(),
            e == run_end(cs@, p as int, digit_cls()),
            forall|j: int| p <= j < e ==> is_digit(#[trigger] cs@[j]),
            acc == digits_val(cs@.subrange(p as int, k as int)),
        decreases e - k,
    {
        let d = char_digit(cs[k]) as usize;
        proof {
            assert(cs@.subrange(p as int, k + 1).drop_last() =~= cs@.subrange(p as int, k as int));
            assert(cs@.subrange(p as int, k + 1).last() == cs@[k as int]);
        }
        if acc > (usize::MAX - d) / 10 {
            proof {
                let full = cs@.subrange(p as int, e as int);
                let part = cs@.subrange(p as int, k + 1);
                assert forall|j: int| 0 <= j < full.len() implies is_digit(#[trigger] full[j]) by {
                    assert(full[j] == cs@[p + j]);
                }
                assert(part =~= full.take(k + 1 - p));
                lemma_digits_val_prefix(full, k + 1 - p);
                assert(digits_val(part) == acc * 10 + char_digit_of(cs@[k as int]));
                assert(acc * 10 + d > usize::MAX) by (nonlinear_arith)
                    requires
                        acc > (usize::MAX - d) / 10,
                        d <= 9,
                ;
            }
            return None;
        }
        acc = acc * 10 + d;
        k += 1;
    }
    proof {
        assert(cs@.subrange(p as int, e as int) =~= cs@.subrange(p as int, k as int));
    }
    Some((acc, e))
}

/// The lowercase flag: one `0` or `1` character at `p`.
pub open spec fn parse_bit_at(s: Seq<char>, p: int) -> Option<(bool, int)> {
    if 0 <= p < s.len() && s[p] == '1' {
        Some((true, p + 1))
    } else if 0 <= p < s.len() && s[p] == '0' {
        Some((false, p + 1))
    } else {
        None
    }
}

/// The entries read from `p` on: `cnt` length-prefixed lines.
pub open spec fn parse_entries_at(s: Seq<char>, p: int, cnt: int) -> Option<(Seq<Seq<char>>, int)>
    decreases cnt,
{
    if cnt <= 0 {
        Some((Seq::empty(), p))
    } else {
        match parse_nat_at(s, p) {
            None => None,
            Some(lp) => {
                let l = lp.0;
                let p1 = lp.1;
                if l > usize::MAX {
                    None
                } else if p1 < s.len() && s[p1] == ' ' && p1 + 1 + l <= s.len() {
                    let t = s.subrange(p1 + 1, p1 + 1 + l);
                    let p3 = p1 + 1 + l;
                    if p3 < s.len() && s[p3] == '\n' {
                        match parse_entries_at(s, p3 + 1, cnt - 1) {
                            Some(rp) => Some((seq![t] + rp.0, rp.1)),
                            None => None,
                        }
                    } else {
                        None
                    }
                } else {
                    None
                }
            },
        }
    }
}

/// The tokenizer fields read from a document, if it is well formed from
/// its first character to its last.
pub open spec fn parse_doc(s: Seq<char>) -> Option<(Seq<Seq<char>>, int, bool)> {
    if !lit_at(s, 0, "maxlen "@) {
        None
    } else {
        match parse_nat_at(s, "maxlen "@.len() as int) {
            None => None,
            Some(mlp) => {
                let ml = mlp.0;
                let p1 = mlp.1;
                if ml > usize::MAX || !lit_at(s, p1, "\n"@) || !lit_at(s, p1 + 1, "lower "@) {
                    None
                } else {
                    match parse_bit_at(s, p1 + 1 + "lower "@.len()) {
                        None => None,
                        Some(lbp) => {
                            let lb = lbp.0;
                            let p3 = lbp.1;
                            if !lit_at(s, p3, "\n"@) || !lit_at(s, p3 + 1, "count "@) {
                                None
                            } else {
                                match parse_nat_at(s, p3 + 1 + "count "@.len()) {
                                    None => None,
                                    Some(cp) => {
                                        let cnt = cp.0;
                                        let p5 = cp.1;
                                        if cnt > usize::MAX || !lit_at(s, p5, "\n"@) {
                                            None
                                        } else {
                                            match parse_entries_at(s, p5 + 1, cnt) {
                                                None => None,
                                                Some(vp) => if vp.1 == s.len() {
                                                    Some((vp.0, ml, lb))
                                                } else {
                                                    None
                                                },
                                            }
                                        }
                                    },
                                }
                            }
                        },
                    }
                }
            },
        }
    }
}


/// Reads a saved document back into vocabulary, maximum length and
/// lowercase flag; fails exactly when the document is not well formed.
pub fn parse_document(doc: &str) -> (r: Option<(Vec<String>, usize, bool)>)
    ensures
        match r {
            Some(t) => parse_doc(doc@) == Some((t.0.deep_view(), t.1 as int, t.2)),
            None => parse_doc(doc@) is None,
        },
{
    proof {
        reveal_strlit("\n");
    }
    let cs = crate::lexer::chars_of(doc);
    let n = cs.len();
    let p = match crate::lexer::lit_here(&cs, 0, "maxlen ") {
        Some(l) => l,
        None => {
            return None;
        },
    };
    let (ml, p) = match parse_nat(&cs, p) {
        Some(x) => x,
        None => {
            return None;
        },
    };
    let p = match crate::lexer::lit_here(&cs, p, "\n") {
        Some(l) => p + l,
        None => {
            return None;
        },
    };
    let p = match crate::lexer::lit_here(&cs, p, "lower ") {
        Some(l) => p + l,
        None => {
            return None;
        },
    };
    if p >= n {
        return None;
    }
    let lb = if cs[p] == '1' {
        true
    } else if cs[p] == '0' {
        false
    } else {
        return None;
    };
    let p = p + 1;
    let p = match crate::lexer::lit_here(&cs, p, "\n") {
        Some(l) => p + l,
        None => {
            return None;
        },
    };
    let p = match crate::lexer::lit_here(&cs, p, "count ") {
        Some(l) => p + l,
        None => {
            return None;
        },
    };
    let (cnt, p) = match parse_nat(&cs, p) {
        Some(x) => x,
        None => {
            return None;
        },
    };
    let p = match crate::lexer::lit_here(&cs, p, "\n") {
        Some(l) => p + l,
        None => {
            return None;
        },
    };
    let ghost entry_start = p as int;
    proof {
        assert(parse_doc(cs@) == (match parse_entries_at(cs@, entry_start, cnt as int) {
            Some(vp) => if vp.1 == cs@.len() {
                Some((vp.0, ml as int, lb))
            } else {
                None
            },
            None => None,
        }));
    }
    let mut toks: Vec<String> = Vec::new();
    let mut p: usize = p;
    let mut k: usize = 0;
    while k < cnt
        invariant
            cs@ == doc@,
            n == cs@.len(),
            p <= n,
            k <= cnt,
            parse_entries_at(cs@, entry_start, cnt as int) == (match parse_entries_at(
                cs@,
                p as int,
                cnt - k,
            ) {
                Some(rp) => Some((toks.deep_view() + rp.0, rp.1)),
                None => None::<(Seq<Seq<char>>, int)>,
            }),
            parse_doc(cs@) == (match parse_entries_at(cs@, entry_start, cnt as int) {
                Some(vp) => if vp.1 == cs@.len() {
                    Some((vp.0, ml as int, lb))
                } else {
                    None
                },
                None => None,
            }),
        decreases cnt - k,
    {
        let (l, p1) = match parse_nat(&cs, p) {
            Some(x) => x,
            None => {
                return None;
            },
        };
        if !(p1 < n && cs[p1] == ' ') {
            return None;
        }
        if l > n - (p1 + 1) {
            return None;
        }
        let t = doc.substring_char(p1 + 1, p1 + 1 + l);
        let p3 = p1 + 1 + l;
        if !(p3 < n && cs[p3] == '\n') {
            return None;
        }
        let ghost prev = toks.deep_view();
        toks.push(t.to_string());
        proof {
            assert(toks.deep_view() =~= prev.push(cs@.subrange(p1 + 1, p1 + 1 + l)));
            let sub = parse_entries_at(cs@, p3 + 1 as int, cnt - k - 1);
            if sub is Some {
                let rp = sub->Some_0;
                assert(prev.push(cs@.subrange(p1 + 1, p1 + 1 + l)) + rp.0 =~= prev + (seq![
                    cs@.subrange(p1 + 1, p1 + 1 + l)
                ] + rp.0));
            }
        }
        p = p3 + 1;
        k += 1;
    }
    proof {
        assert(parse_entries_at(cs@, p as int, 0) == Some((Seq::<Seq<char>>::empty(), p as int)));
        assert(toks.deep_view() + Seq::<Seq<char>>::empty() =~= toks.deep_view());
    }
    if p == n {
        Some((toks, ml, lb))
    } else {
        None
    }
}


// ---------------------------------------------------------------------------
// Round trip
// ---------------------------------------------------------------------------

/// Entries emitted from index `i` on parse back to exactly the emitted
/// tokens, consuming the rest of the document.
proof fn lemma_entries_roundtrip(s: Seq<char>, p: int, v: Seq<Seq<char>>, i: int)
    requires
        0 <= p <= s.len(),
        0 <= i <= v.len(),
        s.subrange(p, s.len() as int) == entries_from(v, i),
        forall|k: int| 0 <= k < v.len() ==> #[trigger] v[k].len() <= usize::MAX,
    ensures
        parse_entries_at(s, p, v.len() - i) == Some((v.skip(i), s.len() as int)),
    decreases v.len() - i,
{
    reveal_strlit(" ");
    reveal_strlit("\n");
    if i == v.len() {
        assert(entries_from(v, i) =~= Seq::<char>::empty());
        assert(s.len() - p == 0);
        assert(v.skip(i) =~= Seq::<Seq<char>>::empty());
    } else {
        let t = v[i];
        let d = dec_digits(t.len() as int);
        let entry = entry_doc(t);
        let rest = entries_from(v, i + 1);
        lemma_dec_digits(t.len() as int);
        assert(entries_from(v, i) == entry + rest);
        assert(s.len() - p == entry.len() + rest.len());
        let dsp = d + " "@;
        let dspt = dsp + t;
        assert(entry =~= dspt + "\n"@);
        assert forall|k: int| 0 <= k < entry.len() implies s[p + k] == entry[k] by {
            assert(s.subrange(p, s.len() as int)[k] == s[p + k]);
            assert(entries_from(v, i)[k] == (entry + rest)[k]);
            assert((entry + rest)[k] == entry[k]);
        }
        let dl = d.len() as int;
        // the digit run of the length prefix
        assert forall|j: int| p <= j < p + dl implies is_digit(#[trigger] s[j]) by {
            let k = j - p;
            assert(s[p + k] == entry[k]);
            assert(entry[k] == (dspt + "\n"@)[k]);
            assert(dspt[k] == dsp[k]);
            assert(dsp[k] == d[k]);
        }
        assert(entry[dl] == dsp[dl]);
        assert(dsp[dl] == " "@[0]);
        assert(s[p + dl] == ' ');
        assert(!is_digit(s[p + dl]));
        crate::lexer::lemma_run_end_exact(s, p, p + dl, digit_cls());
        assert(s.subrange(p, p + dl) =~= d) by {
            assert forall|k: int| 0 <= k < dl implies s.subrange(p, p + dl)[k] == d[k] by {
                assert(s.subrange(p, p + dl)[k] == s[p + k]);
                assert(s[p + k] == entry[k]);
                assert(entry[k] == dspt[k]);
                assert(dspt[k] == dsp[k]);
                assert(dsp[k] == d[k]);
            }
        }
        assert(parse_nat_at(s, p) == Some((t.len() as int, p + dl)));
        let p1 = p + dl;
        // the token body
        assert(p1 + 1 + t.len() <= s.len());
        assert(s.subrange(p1 + 1, p1 + 1 + t.len() as int) =~= t) by {
            assert forall|k: int| 0 <= k < t.len() implies s.subrange(
                p1 + 1,
                p1 + 1 + t.len() as int,
            )[k] == t[k] by {
                assert(s.subrange(p1 + 1, p1 + 1 + t.len() as int)[k] == s[p + (dl + 1 + k)]);
                assert(s[p + (dl + 1 + k)] == entry[dl + 1 + k]);
                assert(entry[dl + 1 + k] == dspt[dl + 1 + k]);
                assert(dspt[dl + 1 + k] == t[k]);
            }
        }
        let p3 = p1 + 1 + t.len() as int;
        assert(s[p + (entry.len() - 1)] == entry[entry.len() - 1]);
        assert(entry[entry.len() - 1] == "\n"@[0]);
        assert(s[p3] == '\n');
        // the rest of the document is the remaining entries
        assert(s.subrange(p3 + 1, s.len() as int) =~= rest) by {
            assert forall|k: int| 0 <= k < rest.len() implies s.subrange(p3 + 1, s.len() as int)[k]
                == rest[k] by {
                assert(s.subrange(p3 + 1, s.len() as int)[k] == s[p3 + 1 + k]);
                assert(s.subrange(p, s.len() as int)[entry.len() + k] == s[p3 + 1 + k]);
                assert(entries_from(v, i)[entry.len() + k] == (entry + rest)[entry.len() + k]);
                assert((entry + rest)[entry.len() + k] == rest[k]);
            }
        }
        lemma_entries_roundtrip(s, p3 + 1, v, i + 1);
        assert(seq![t] + v.skip(i + 1) =~= v.skip(i));
    }
}

/// Law: parsing an emitted document restores the vocabulary, the maximum
/// length and the lowercase flag exactly.
pub proof fn lemma_document_roundtrip(v: Seq<Seq<char>>, ml: int, lb: bool)
    requires
        0 <= ml <= usize::MAX,
        v.len() <= usize::MAX,
        forall|k: int| 0 <= k < v.len() ==> #[trigger] v[k].len() <= usize::MAX,
    ensures
        parse_doc(emit_doc(v, ml, lb)) == Some((v, ml, lb)),
{
    reveal_strlit("maxlen ");
    reveal_strlit("lower ");
    reveal_strlit("count ");
    reveal_strlit("\n");
    reveal_strlit("1");
    reveal_strlit("0");
    let s = emit_doc(v, ml, lb);
    let a2 = dec_digits(ml);
    let a5: Seq<char> = if lb {
        "1"@
    } else {
        "0"@
    };
    let a8 = dec_digits(v.len() as int);
    let a10 = entries_from(v, 0);
    lemma_dec_digits(ml);
    lemma_dec_digits(v.len() as int);
    assert(s =~= "maxlen "@ + a2 + "\n"@ + "lower "@ + a5 + "\n"@ + "count "@ + a8 + "\n"@
        + a10);
    let d2 = a2.len() as int;
    let d8 = a8.len() as int;
    let p1 = 7 + d2;
    let p3 = p1 + 1 + 6 + 1;
    let p5 = p3 + 1 + 6 + d8;
    let pe = p5 + 1;
    assert(s.len() == pe + a10.len());
    // header literal: maxlen
    assert(s.subrange(0, 7) =~= "maxlen "@);
    assert(lit_at(s, 0, "maxlen "@));
    // the maximum length
    assert forall|j: int| 7 <= j < 7 + d2 implies is_digit(#[trigger] s[j]) by {
        assert(s[j] == a2[j - 7]);
    }
    assert(s[7 + d2] == '\n');
    assert(!is_digit(s[7 + d2]));
    crate::lexer::lemma_run_end_exact(s, 7, 7 + d2, digit_cls());
    assert(s.subrange(7, 7 + d2) =~= a2);
    assert(parse_nat_at(s, 7) == Some((ml, p1)));
    // newline and the lower literal
    assert(s.subrange(p1, p1 + 1) =~= "\n"@);
    assert(lit_at(s, p1, "\n"@));
    assert(s.subrange(p1 + 1, p1 + 7) =~= "lower "@);
    assert(lit_at(s, p1 + 1, "lower "@));
    // the flag bit
    assert(s[p1 + 7] == a5[0]);
    if lb {
        assert(a5[0] == '1');
    } else {
        assert(a5[0] == '0');
        assert(a5[0] != '1');
    }
    assert(parse_bit_at(s, p1 + 7) == Some((lb, p3)));
    // newline and the count literal
    assert(s.subrange(p3, p3 + 1) =~= "\n"@);
    assert(lit_at(s, p3, "\n"@));
    assert(s.subrange(p3 + 1, p3 + 7) =~= "count "@);
    assert(lit_at(s, p3 + 1, "count "@));
    // the entry count
    assert forall|j: int| p3 + 7 <= j < p3 + 7 + d8 implies is_digit(#[trigger] s[j]) by {
        assert(s[j] == a8[j - (p3 + 7)]);
    }
    assert(s[p3 + 7 + d8] == '\n');
    assert(!is_digit(s[p3 + 7 + d8]));
    crate::lexer::lemma_run_end_exact(s, p3 + 7, p3 + 7 + d8, digit_cls());
    assert(s.subrange(p3 + 7, p3 + 7 + d8) =~= a8);
    assert(parse_nat_at(s, p3 + 7) == Some((v.len() as int, p5)));
    // final newline, then the entries
    assert(s.subrange(p5, p5 + 1) =~= "\n"@);
    assert(lit_at(s, p5, "\n"@));
    assert(s.subrange(pe, s.len() as int) =~= a10);
    lemma_entries_roundtrip(s, pe, v, 0);
    assert(v.skip(0) =~= v);
}

} // verus!
