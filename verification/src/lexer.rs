//! The WGSL token grammar: greedy left-to-right scanning with a fixed
//! priority order of pattern classes.
//!
//! At each offset the scanner skips whitespace, then tries the classes in
//! strict priority order — parameterized type specifiers, attribute
//! annotations, reserved keywords, numeric literals, operator runs, single
//! punctuation characters, identifiers — and emits the match of the first
//! class that matches at the current offset. Characters that no class
//! matches are skipped silently.

use vstd::prelude::*;

verus! {

use vstd::std_specs::iter::IteratorSpec;

// ---------------------------------------------------------------------------
// Character classes
// ---------------------------------------------------------------------------

/// Unicode White_Space characters.
pub open spec fn is_ws(c: char) -> bool {
    let u = c as u32;
    (0x09 <= u && u <= 0x0D) || u == 0x20 || u == 0x85 || u == 0xA0 || u == 0x1680 || (0x2000
        <= u && u <= 0x200A) || u == 0x2028 || u == 0x2029 || u == 0x202F || u == 0x205F || u
        == 0x3000
}

/// Word characters: ASCII letters, digits and underscore.
pub open spec fn is_word(c: char) -> bool {
    ('a' <= c && c <= 'z') || ('A' <= c && c <= 'Z') || ('0' <= c && c <= '9') || c == '_'
}

/// Characters that may start an identifier.
pub open spec fn is_ident_start(c: char) -> bool {
    ('a' <= c && c <= 'z') || ('A' <= c && c <= 'Z') || c == '_'
}

/// ASCII decimal digits.
pub open spec fn is_digit(c: char) -> bool {
    '0' <= c && c <= '9'
}

/// ASCII hexadecimal digits.
pub open spec fn is_hex_digit(c: char) -> bool {
    ('0' <= c && c <= '9') || ('a' <= c && c <= 'f') || ('A' <= c && c <= 'F')
}

/// Operator characters.
pub open spec fn is_op_char(c: char) -> bool {
    c == '+' || c == '-' || c == '*' || c == '/' || c == '%' || c == '&' || c == '|' || c == '^'
        || c == '<' || c == '>' || c == '=' || c == '!' || c == '~'
}

/// Punctuation characters, emitted one at a time.
pub open spec fn is_punct(c: char) -> bool {
    c == '(' || c == ')' || c == '{' || c == '}' || c == '[' || c == ']' || c == ';' || c == ':'
        || c == ',' || c == '.'
}

/// Decides `is_ws`.
pub fn ws_char(c: char) -> (b: bool)
    ensures
        b == is_ws(c),
{
    let u = c as u32;
    (0x09 <= u && u <= 0x0D) || u == 0x20 || u == 0x85 || u == 0xA0 || u == 0x1680 || (0x2000
        <= u && u <= 0x200A) || u == 0x2028 || u == 0x2029 || u == 0x202F || u == 0x205F || u
        == 0x3000
}

/// Decides `is_word`.
pub fn word_char(c: char) -> (b: bool)
    ensures
        b == is_word(c),
{
    ('a' <= c && c <= 'z') || ('A' <= c && c <= 'Z') || ('0' <= c && c <= '9') || c == '_'
}

/// Decides `is_ident_start`.
pub fn ident_start_char(c: char) -> (b: bool)
    ensures
        b == is_ident_start(c),
{
    ('a' <= c && c <= 'z') || ('A' <= c && c <= 'Z') || c == '_'
}

/// Decides `is_digit`.
pub fn digit_char(c: char) -> (b: bool)
    ensures
        b == is_digit(c),
{
    '0' <= c && c <= '9'
}

/// Decides `is_hex_digit`.
pub fn hex_digit_char(c: char) -> (b: bool)
    ensures
        b == is_hex_digit(c),
{
    ('0' <= c && c <= '9') || ('a' <= c && c <= 'f') || ('A' <= c && c <= 'F')
}

/// Decides `is_op_char`.
pub fn op_char(c: char) -> (b: bool)
    ensures
        b == is_op_char(c),
{
    c == '+' || c == '-' || c == '*' || c == '/' || c == '%' || c == '&' || c == '|' || c == '^'
        || c == '<' || c == '>' || c == '=' || c == '!' || c == '~'
}

/// Decides `is_punct`.
pub fn punct_char(c: char) -> (b: bool)
    ensures
        b == is_punct(c),
{
    c == '(' || c == ')' || c == '{' || c == '}' || c == '[' || c == ']' || c == ';' || c == ':'
        || c == ',' || c == '.'
}

// ---------------------------------------------------------------------------
// Runs of characters from one class
// ---------------------------------------------------------------------------


/// The word-character class as a value, so contracts can share it.
pub open spec fn word_cls() -> spec_fn(char) -> bool {
    |c: char| is_word(c)
}

/// The decimal-digit class as a value.
pub open spec fn digit_cls() -> spec_fn(char) -> bool {
    |c: char| is_digit(c)
}

/// The hexadecimal-digit class as a value.
pub open spec fn hex_cls() -> spec_fn(char) -> bool {
    |c: char| is_hex_digit(c)
}

/// The operator-character class as a value.
pub open spec fn op_cls() -> spec_fn(char) -> bool {
    |c: char| is_op_char(c)
}

/// Everything but the closing angle bracket, as a class value.
pub open spec fn non_gt_cls() -> spec_fn(char) -> bool {
    |c: char| c != '>'
}

/// End of the maximal run of characters satisfying `cls` that starts at `pos`.
pub open spec fn run_end(s: Seq<char>, pos: int, cls: spec_fn(char) -> bool) -> int
    decreases s.len() - pos,
{
    if pos < 0 || pos >= s.len() || !cls(s[pos]) {
        pos
    } else {
        run_end(s, pos + 1, cls)
    }
}

pub proof fn lemma_run_end_bounds(s: Seq<char>, pos: int, cls: spec_fn(char) -> bool)
    requires
        0 <= pos <= s.len(),
    ensures
        pos <= run_end(s, pos, cls) <= s.len(),
    decreases s.len() - pos,
{
    if pos < s.len() && cls(s[pos]) {
        lemma_run_end_bounds(s, pos + 1, cls);
    }
}

pub proof fn lemma_run_end_chars(s: Seq<char>, pos: int, cls: spec_fn(char) -> bool)
    requires
        0 <= pos <= s.len(),
    ensures
        forall|j: int| pos <= j < run_end(s, pos, cls) ==> cls(#[trigger] s[j]),
    decreases s.len() - pos,
{
    if pos < s.len() && cls(s[pos]) {
        lemma_run_end_bounds(s, pos + 1, cls);
        lemma_run_end_chars(s, pos + 1, cls);
    }
}

/// A run that is known to span `[pos, e)` and stop there ends at `e`.
pub proof fn lemma_run_end_exact(s: Seq<char>, pos: int, e: int, cls: spec_fn(char) -> bool)
    requires
        0 <= pos <= e <= s.len(),
        forall|j: int| pos <= j < e ==> cls(#[trigger] s[j]),
        e == s.len() || !cls(s[e]),
    ensures
        run_end(s, pos, cls) == e,
    decreases e - pos,
{
    if pos < e {
        lemma_run_end_exact(s, pos + 1, e, cls);
    }
}

/// The characters of `s`, in order, as a vector.
pub fn chars_of(s: &str) -> (v: Vec<char>)
    ensures
        v@ == s@,
{
    let mut it = s.chars();
    let mut v: Vec<char> = Vec::new();
    loop
        invariant
            v@ + it.remaining() == s@,
            it.decrease() is Some,
        ensures
            v@ == s@,
        decreases it.decrease()->0,
    {
        match it.next() {
            Some(c) => {
                v.push(c);
            },
            None => {
                break ;
            },
        }
    }
    v
}

/// Whether the word `w` occurs in `s` starting exactly at `pos`.
pub open spec fn lit_at(s: Seq<char>, pos: int, w: Seq<char>) -> bool {
    &&& 0 <= pos
    &&& pos + w.len() <= s.len()
    &&& s.subrange(pos, pos + w.len() as int) == w
}

/// If `w` starts at `pos` in `cs`, its length; `None` otherwise.
pub fn lit_here(cs: &Vec<char>, pos: usize, w: &str) -> (r: Option<usize>)
    requires
        pos <= cs@.len(),
    ensures
        match r {
            Some(l) => lit_at(cs@, pos as int, w@) && l == w@.len() && pos + l <= cs@.len(),
            None => !lit_at(cs@, pos as int, w@),
        },
{
    let wc = chars_of(w);
    if cs.len() - pos < wc.len() {
        return None;
    }
    let mut i: usize = 0;
    while i < wc.len()
        invariant
            0 <= i <= wc.len(),
            pos + wc.len() <= cs.len(),
            wc@ == w@,
            cs@.len() == cs.len(),
            forall|j: int| 0 <= j < i ==> cs@[pos + j] == wc@[j],
        decreases wc.len() - i,
    {
        if cs[pos + i] != wc[i] {
            assert(!lit_at(cs@, pos as int, w@)) by {
                if lit_at(cs@, pos as int, w@) {
                    assert(cs@.subrange(pos as int, pos + w@.len() as int)[i as int] == w@[i as int]);
                }
            }
            return None;
        }
        i += 1;
    }
    assert(cs@.subrange(pos as int, pos + w@.len() as int) =~= w@);
    Some(wc.len())
}

/// End of the maximal run of word characters starting at `pos`.
pub fn word_run(cs: &Vec<char>, pos: usize) -> (e: usize)
    requires
        pos <= cs@.len(),
    ensures
        e == run_end(cs@, pos as int, word_cls()),
        pos <= e <= cs@.len(),
{
    let mut e: usize = pos;
    while e < cs.len() && word_char(cs[e])
        invariant
            pos <= e <= cs@.len(),
            run_end(cs@, pos as int, word_cls()) == run_end(cs@, e as int, word_cls()),
        decreases cs@.len() - e,
    {
        e += 1;
    }
    e
}

/// End of the maximal run of decimal digits starting at `pos`.
pub fn digit_run(cs: &Vec<char>, pos: usize) -> (e: usize)
    requires
        pos <= cs@.len(),
    ensures
        e == run_end(cs@, pos as int, digit_cls()),
        pos <= e <= cs@.len(),
{
    let mut e: usize = pos;
    while e < cs.len() && digit_char(cs[e])
        invariant
            pos <= e <= cs@.len(),
            run_end(cs@, pos as int, digit_cls()) == run_end(cs@, e as int, digit_cls()),
        decreases cs@.len() - e,
    {
        e += 1;
    }
    e
}

/// End of the maximal run of hexadecimal digits starting at `pos`.
pub fn hex_run(cs: &Vec<char>, pos: usize) -> (e: usize)
    requires
        pos <= cs@.len(),
    ensures
        e == run_end(cs@, pos as int, hex_cls()),
        pos <= e <= cs@.len(),
{
    let mut e: usize = pos;
    while e < cs.len() && hex_digit_char(cs[e])
        invariant
            pos <= e <= cs@.len(),
            run_end(cs@, pos as int, hex_cls()) == run_end(cs@, e as int, hex_cls()),
        decreases cs@.len() - e,
    {
        e += 1;
    }
    e
}

// ---------------------------------------------------------------------------
// Keywords
// ---------------------------------------------------------------------------

/// The first alternative that fits wins: `a` if it is some, else `b`.
pub open spec fn or_opt(a: Option<int>, b: Option<int>) -> Option<int> {
    if a is Some {
        a
    } else {
        b
    }
}

/// A keyword occurrence: the word at `pos`, not followed by a word character.
pub open spec fn kw_at(s: Seq<char>, pos: int, w: Seq<char>) -> bool {
    &&& lit_at(s, pos, w)
    &&& (pos + w.len() == s.len() || !is_word(s[pos + w.len()]))
}

/// Length of the reserved keyword starting at `pos`, if any.
pub open spec fn keyword_at(s: Seq<char>, pos: int) -> Option<int> {
    if kw_at(s, pos, "fn"@) {
        Some("fn"@.len() as int)
    } else if kw_at(s, pos, "var"@) {
        Some("var"@.len() as int)
    } else if kw_at(s, pos, "let"@) {
        Some("let"@.len() as int)
    } else if kw_at(s, pos, "const"@) {
        Some("const"@.len() as int)
    } else if kw_at(s, pos, "struct"@) {
        Some("struct"@.len() as int)
    } else if kw_at(s, pos, "type"@) {
        Some("type"@.len() as int)
    } else if kw_at(s, pos, "if"@) {
        Some("if"@.len() as int)
    } else if kw_at(s, pos, "else"@) {
        Some("else"@.len() as int)
    } else if kw_at(s, pos, "for"@) {
        Some("for"@.len() as int)
    } else if kw_at(s, pos, "while"@) {
        Some("while"@.len() as int)
    } else if kw_at(s, pos, "loop"@) {
        Some("loop"@.len() as int)
    } else if kw_at(s, pos, "break"@) {
        Some("break"@.len() as int)
    } else if kw_at(s, pos, "continue"@) {
        Some("continue"@.len() as int)
    } else if kw_at(s, pos, "return"@) {
        Some("return"@.len() as int)
    } else if kw_at(s, pos, "switch"@) {
        Some("switch"@.len() as int)
    } else if kw_at(s, pos, "case"@) {
        Some("case"@.len() as int)
    } else if kw_at(s, pos, "default"@) {
        Some("default"@.len() as int)
    } else if kw_at(s, pos, "discard"@) {
        Some("discard"@.len() as int)
    } else {
        None
    }
}

/// Whether position `e` ends a word: the end of input or a non-word character.
fn word_boundary(cs: &Vec<char>, e: usize) -> (b: bool)
    requires
        e <= cs@.len(),
    ensures
        b == (e == cs@.len() || !is_word(cs@[e as int])),
{
    e == cs.len() || !word_char(cs[e])
}

/// Tries one keyword alternative at `pos`.
fn kw_try(cs: &Vec<char>, pos: usize, w: &str) -> (r: Option<usize>)
    requires
        pos <= cs@.len(),
    ensures
        match r {
            Some(l) => kw_at(cs@, pos as int, w@) && l == w@.len() && pos + l <= cs@.len(),
            None => !kw_at(cs@, pos as int, w@),
        },
{
    proof {
        assert(cs.len() <= usize::MAX);
    }
    if let Some(l) = lit_here(cs, pos, w) {
        if word_boundary(cs, pos + l) {
            return Some(l);
        }
    }
    None
}

/// Matches the reserved-keyword class at `pos`.
fn keyword_match(cs: &Vec<char>, pos: usize) -> (r: Option<usize>)
    requires
        pos <= cs@.len(),
    ensures
        match r {
            Some(l) => keyword_at(cs@, pos as int) == Some(l as int) && 1 <= l && pos + l
                <= cs@.len(),
            None => keyword_at(cs@, pos as int) is None,
        },
{
    proof {
        reveal_strlit("fn");
        reveal_strlit("var");
        reveal_strlit("let");
        reveal_strlit("const");
        reveal_strlit("struct");
        reveal_strlit("type");
        reveal_strlit("if");
        reveal_strlit("else");
        reveal_strlit("for");
        reveal_strlit("while");
        reveal_strlit("loop");
        reveal_strlit("break");
        reveal_strlit("continue");
        reveal_strlit("return");
        reveal_strlit("switch");
        reveal_strlit("case");
        reveal_strlit("default");
        reveal_strlit("discard");
    }
    if let Some(l) = kw_try(cs, pos, "fn") {
        return Some(l);
    }
    if let Some(l) = kw_try(cs, pos, "var") {
        return Some(l);
    }
    if let Some(l) = kw_try(cs, pos, "let") {
        return Some(l);
    }
    if let Some(l) = kw_try(cs, pos, "const") {
        return Some(l);
    }
    if let Some(l) = kw_try(cs, pos, "struct") {
        return Some(l);
    }
    if let Some(l) = kw_try(cs, pos, "type") {
        return Some(l);
    }
    if let Some(l) = kw_try(cs, pos, "if") {
        return Some(l);
    }
    if let Some(l) = kw_try(cs, pos, "else") {
        return Some(l);
    }
    if let Some(l) = kw_try(cs, pos, "for") {
        return Some(l);
    }
    if let Some(l) = kw_try(cs, pos, "while") {
        return Some(l);
    }
    if let Some(l) = kw_try(cs, pos, "loop") {
        return Some(l);
    }
    if let Some(l) = kw_try(cs, pos, "break") {
        return Some(l);
    }
    if let Some(l) = kw_try(cs, pos, "continue") {
        return Some(l);
    }
    if let Some(l) = kw_try(cs, pos, "return") {
        return Some(l);
    }
    if let Some(l) = kw_try(cs, pos, "switch") {
        return Some(l);
    }
    if let Some(l) = kw_try(cs, pos, "case") {
        return Some(l);
    }
    if let Some(l) = kw_try(cs, pos, "default") {
        return Some(l);
    }
    if let Some(l) = kw_try(cs, pos, "discard") {
        return Some(l);
    }
    None
}

/// End of the maximal run of operator characters starting at `pos`.
pub fn op_run(cs: &Vec<char>, pos: usize) -> (e: usize)
    requires
        pos <= cs@.len(),
    ensures
        e == run_end(cs@, pos as int, op_cls()),
        pos <= e <= cs@.len(),
{
    let mut e: usize = pos;
    while e < cs.len() && op_char(cs[e])
        invariant
            pos <= e <= cs@.len(),
            run_end(cs@, pos as int, op_cls()) == run_end(cs@, e as int, op_cls()),
        decreases cs@.len() - e,
    {
        e += 1;
    }
    e
}


// ---------------------------------------------------------------------------
// Attribute annotations
// ---------------------------------------------------------------------------

/// Length of the recognized attribute name starting at `pos`, if any;
/// alternatives are tried in a fixed order and the first fit wins.
pub open spec fn attr_name_at(s: Seq<char>, pos: int) -> Option<int> {
    if lit_at(s, pos, "compute"@) {
        Some("compute"@.len() as int)
    } else if lit_at(s, pos, "fragment"@) {
        Some("fragment"@.len() as int)
    } else if lit_at(s, pos, "vertex"@) {
        Some("vertex"@.len() as int)
    } else if lit_at(s, pos, "group"@) {
        Some("group"@.len() as int)
    } else if lit_at(s, pos, "binding"@) {
        Some("binding"@.len() as int)
    } else if lit_at(s, pos, "location"@) {
        Some("location"@.len() as int)
    } else if lit_at(s, pos, "builtin"@) {
        Some("builtin"@.len() as int)
    } else if lit_at(s, pos, "workgroup_size"@) {
        Some("workgroup_size"@.len() as int)
    } else if lit_at(s, pos, "stage"@) {
        Some("stage"@.len() as int)
    } else if lit_at(s, pos, "size"@) {
        Some("size"@.len() as int)
    } else if lit_at(s, pos, "align"@) {
        Some("align"@.len() as int)
    } else if lit_at(s, pos, "interpolate"@) {
        Some("interpolate"@.len() as int)
    } else {
        None
    }
}

/// Length of the attribute annotation at `pos`: `@` followed by a
/// recognized attribute name.
pub open spec fn attr_at(s: Seq<char>, pos: int) -> Option<int> {
    if 0 <= pos < s.len() && s[pos] == '@' {
        match attr_name_at(s, pos + 1) {
            Some(l) => Some(l + 1),
            None => None,
        }
    } else {
        None
    }
}

/// Matches the attribute class at `pos`.
fn attr_match(cs: &Vec<char>, pos: usize) -> (r: Option<usize>)
    requires
        pos <= cs@.len(),
    ensures
        match r {
            Some(l) => attr_at(cs@, pos as int) == Some(l as int) && 1 <= l && pos + l
                <= cs@.len(),
            None => attr_at(cs@, pos as int) is None,
        },
{
    proof {
            reveal_strlit("compute");
            reveal_strlit("fragment");
            reveal_strlit("vertex");
            reveal_strlit("group");
            reveal_strlit("binding");
            reveal_strlit("location");
            reveal_strlit("builtin");
            reveal_strlit("workgroup_size");
            reveal_strlit("stage");
            reveal_strlit("size");
            reveal_strlit("align");
            reveal_strlit("interpolate");
    }
    let n = cs.len();
    if pos < n && cs[pos] == '@' {
        if let Some(l) = lit_here(cs, pos + 1, "compute") {
            return Some(l + 1);
        }
        if let Some(l) = lit_here(cs, pos + 1, "fragment") {
            return Some(l + 1);
        }
        if let Some(l) = lit_here(cs, pos + 1, "vertex") {
            return Some(l + 1);
        }
        if let Some(l) = lit_here(cs, pos + 1, "group") {
            return Some(l + 1);
        }
        if let Some(l) = lit_here(cs, pos + 1, "binding") {
            return Some(l + 1);
        }
        if let Some(l) = lit_here(cs, pos + 1, "location") {
            return Some(l + 1);
        }
        if let Some(l) = lit_here(cs, pos + 1, "builtin") {
            return Some(l + 1);
        }
        if let Some(l) = lit_here(cs, pos + 1, "workgroup_size") {
            return Some(l + 1);
        }
        if let Some(l) = lit_here(cs, pos + 1, "stage") {
            return Some(l + 1);
        }
        if let Some(l) = lit_here(cs, pos + 1, "size") {
            return Some(l + 1);
        }
        if let Some(l) = lit_here(cs, pos + 1, "align") {
            return Some(l + 1);
        }
        if let Some(l) = lit_here(cs, pos + 1, "interpolate") {
            return Some(l + 1);
        }
    }
    None
}

// ---------------------------------------------------------------------------
// Parameterized type specifiers
// ---------------------------------------------------------------------------

/// End of the angle-bracket argument of a type specifier whose bracket
/// opens at `g`: at least one character other than `>` and a closing `>`.
pub open spec fn gen_end(s: Seq<char>, g: int) -> Option<int> {
    if 0 <= g < s.len() && s[g] == '<' {
        let m = run_end(s, g + 1, non_gt_cls());
        if m < s.len() && m > g + 1 {
            Some(m + 1)
        } else {
            None
        }
    } else {
        None
    }
}

/// Whole length of a type-specifier match at `pos` whose base name has
/// length `namelen`, if its angle-bracket argument follows.
pub open spec fn type_alt(s: Seq<char>, pos: int, namelen: int) -> Option<int> {
    match gen_end(s, pos + namelen) {
        Some(e) => Some(e - pos),
        None => None,
    }
}

/// A `vec2`/`vec3`/`vec4` base name at `pos`.
pub open spec fn vec_name_at(s: Seq<char>, pos: int) -> bool {
    &&& lit_at(s, pos, "vec"@)
    &&& pos + 3 < s.len()
    &&& (s[pos + 3] == '2' || s[pos + 3] == '3' || s[pos + 3] == '4')
}

/// A `mat2x2` .. `mat4x4` base name at `pos`.
pub open spec fn mat_name_at(s: Seq<char>, pos: int) -> bool {
    &&& lit_at(s, pos, "mat"@)
    &&& pos + 5 < s.len()
    &&& (s[pos + 3] == '2' || s[pos + 3] == '3' || s[pos + 3] == '4')
    &&& s[pos + 4] == 'x'
    &&& (s[pos + 5] == '2' || s[pos + 5] == '3' || s[pos + 5] == '4')
}

/// A `texture_1d`/`texture_2d`/`texture_3d` base name at `pos`.
pub open spec fn tex_dim_name_at(s: Seq<char>, pos: int) -> bool {
    &&& lit_at(s, pos, "texture_"@)
    &&& pos + 9 < s.len()
    &&& (s[pos + 8] == '1' || s[pos + 8] == '2' || s[pos + 8] == '3')
    &&& s[pos + 9] == 'd'
}

/// A `texture_storage_1d`/`_2d`/`_3d` base name at `pos`.
pub open spec fn tex_storage_name_at(s: Seq<char>, pos: int) -> bool {
    &&& lit_at(s, pos, "texture_storage_"@)
    &&& pos + 17 < s.len()
    &&& (s[pos + 16] == '1' || s[pos + 16] == '2' || s[pos + 16] == '3')
    &&& s[pos + 17] == 'd'
}

/// Length of the type-specifier match at `pos`, if any; base-name
/// alternatives are tried in a fixed order, and an alternative fits only
/// if its angle-bracket argument follows.
pub open spec fn type_at(s: Seq<char>, pos: int) -> Option<int> {
    or_opt(
        if vec_name_at(s, pos) {
            type_alt(s, pos, 4)
        } else {
            None
        },
        or_opt(
            if mat_name_at(s, pos) {
                type_alt(s, pos, 6)
            } else {
                None
            },
            or_opt(
                if lit_at(s, pos, "array"@) {
                    type_alt(s, pos, 5)
                } else {
                    None
                },
                or_opt(
                    if tex_dim_name_at(s, pos) {
                        type_alt(s, pos, 10)
                    } else {
                        None
                    },
                    or_opt(
                        if lit_at(s, pos, "texture_cube"@) {
                            type_alt(s, pos, 12)
                        } else {
                            None
                        },
                        or_opt(
                            if lit_at(s, pos, "texture_2d_array"@) {
                                type_alt(s, pos, 16)
                            } else {
                                None
                            },
                            or_opt(
                                if tex_storage_name_at(s, pos) {
                                    type_alt(s, pos, 18)
                                } else {
                                    None
                                },
                                or_opt(
                                    if lit_at(s, pos, "sampler"@) {
                                        type_alt(s, pos, 7)
                                    } else {
                                        None
                                    },
                                    or_opt(
                                        if lit_at(s, pos, "sampler_comparison"@) {
                                            type_alt(s, pos, 18)
                                        } else {
                                            None
                                        },
                                        or_opt(
                                            if lit_at(s, pos, "atomic"@) {
                                                type_alt(s, pos, 6)
                                            } else {
                                                None
                                            },
                                            if lit_at(s, pos, "ptr"@) {
                                                type_alt(s, pos, 3)
                                            } else {
                                                None
                                            },
                                        ),
                                    ),
                                ),
                            ),
                        ),
                    ),
                ),
            ),
        ),
    )
}

/// Matches the angle-bracket argument whose bracket would open at `g`.
fn gen_match(cs: &Vec<char>, g: usize) -> (r: Option<usize>)
    requires
        g <= cs@.len(),
    ensures
        match r {
            Some(e) => gen_end(cs@, g as int) == Some(e as int) && g < e && e <= cs@.len(),
            None => gen_end(cs@, g as int) is None,
        },
{
    let n = cs.len();
    if g < n && cs[g] == '<' {
        let mut m = g + 1;
        while m < n && cs[m] != '>'
            invariant
                g + 1 <= m <= n,
                n == cs@.len(),
                run_end(cs@, (g + 1) as int, non_gt_cls()) == run_end(cs@, m as int, non_gt_cls()),
            decreases n - m,
        {
            m += 1;
        }
        if m < n && m > g + 1 {
            return Some(m + 1);
        }
    }
    None
}

/// Matches the type-specifier class at `pos`.
#[verifier::rlimit(60)]
fn type_match(cs: &Vec<char>, pos: usize) -> (r: Option<usize>)
    requires
        pos <= cs@.len(),
    ensures
        match r {
            Some(l) => type_at(cs@, pos as int) == Some(l as int) && 1 <= l && pos + l
                <= cs@.len(),
            None => type_at(cs@, pos as int) is None,
        },
{
    proof {
        reveal_strlit("vec");
        reveal_strlit("mat");
        reveal_strlit("array");
        reveal_strlit("texture_");
        reveal_strlit("texture_cube");
        reveal_strlit("texture_2d_array");
        reveal_strlit("texture_storage_");
        reveal_strlit("sampler");
        reveal_strlit("sampler_comparison");
        reveal_strlit("atomic");
        reveal_strlit("ptr");
    }
    let n = cs.len();
    if let Some(_l) = lit_here(cs, pos, "vec") {
        if n - pos > 3 && (cs[pos + 3] == '2' || cs[pos + 3] == '3' || cs[pos + 3] == '4') {
            if let Some(e) = gen_match(cs, pos + 4) {
                return Some(e - pos);
            }
        }
    }
    if let Some(_l) = lit_here(cs, pos, "mat") {
        if n - pos > 5 && (cs[pos + 3] == '2' || cs[pos + 3] == '3' || cs[pos + 3] == '4') && cs[pos
            + 4] == 'x' && (cs[pos + 5] == '2' || cs[pos + 5] == '3' || cs[pos + 5] == '4') {
            if let Some(e) = gen_match(cs, pos + 6) {
                return Some(e - pos);
            }
        }
    }
    if let Some(l) = lit_here(cs, pos, "array") {
        if let Some(e) = gen_match(cs, pos + l) {
            return Some(e - pos);
        }
    }
    if let Some(_l) = lit_here(cs, pos, "texture_") {
        if n - pos > 9 && (cs[pos + 8] == '1' || cs[pos + 8] == '2' || cs[pos + 8] == '3') && cs[pos
            + 9] == 'd' {
            if let Some(e) = gen_match(cs, pos + 10) {
                return Some(e - pos);
            }
        }
    }
    if let Some(l) = lit_here(cs, pos, "texture_cube") {
        if let Some(e) = gen_match(cs, pos + l) {
            return Some(e - pos);
        }
    }
    if let Some(l) = lit_here(cs, pos, "texture_2d_array") {
        if let Some(e) = gen_match(cs, pos + l) {
            return Some(e - pos);
        }
    }
    if let Some(_l) = lit_here(cs, pos, "texture_storage_") {
        if n - pos > 17 && (cs[pos + 16] == '1' || cs[pos + 16] == '2' || cs[pos + 16] == '3')
            && cs[pos + 17] == 'd' {
            if let Some(e) = gen_match(cs, pos + 18) {
                return Some(e - pos);
            }
        }
    }
    if let Some(l) = lit_here(cs, pos, "sampler") {
        if let Some(e) = gen_match(cs, pos + l) {
            return Some(e - pos);
        }
    }
    if let Some(l) = lit_here(cs, pos, "sampler_comparison") {
        if let Some(e) = gen_match(cs, pos + l) {
            return Some(e - pos);
        }
    }
    if let Some(l) = lit_here(cs, pos, "atomic") {
        if let Some(e) = gen_match(cs, pos + l) {
            return Some(e - pos);
        }
    }
    if let Some(l) = lit_here(cs, pos, "ptr") {
        if let Some(e) = gen_match(cs, pos + l) {
            return Some(e - pos);
        }
    }
    None
}

// ---------------------------------------------------------------------------
// Numeric literals
// ---------------------------------------------------------------------------

/// Length of a hexadecimal literal at `pos`: `0x` and at least one
/// hexadecimal digit, as many as possible.
pub open spec fn hex_number_at(s: Seq<char>, pos: int) -> Option<int> {
    if 0 <= pos < s.len() && s[pos] == '0' && pos + 1 < s.len() && s[pos + 1] == 'x' {
        let h = run_end(s, pos + 2, hex_cls());
        if h > pos + 2 {
            Some(h - pos)
        } else {
            None
        }
    } else {
        None
    }
}

/// Length of a decimal literal at `pos`: digits, an optional fraction,
/// an optional exponent (taken only when digits follow), and an optional
/// `f` or `u` suffix.
pub open spec fn dec_number_at(s: Seq<char>, pos: int) -> Option<int> {
    let d = run_end(s, pos, digit_cls());
    if d == pos {
        None
    } else {
        let f = if d < s.len() && s[d] == '.' {
            run_end(s, d + 1, digit_cls())
        } else {
            d
        };
        let e = if f < s.len() && (s[f] == 'e' || s[f] == 'E') {
            let p = if f + 1 < s.len() && (s[f + 1] == '+' || s[f + 1] == '-') {
                f + 2
            } else {
                f + 1
            };
            let x = run_end(s, p, digit_cls());
            if x > p {
                x
            } else {
                f
            }
        } else {
            f
        };
        let fin = if e < s.len() && (s[e] == 'f' || s[e] == 'u') {
            e + 1
        } else {
            e
        };
        Some(fin - pos)
    }
}

/// Length of the numeric literal at `pos`: hexadecimal first, else decimal.
pub open spec fn number_at(s: Seq<char>, pos: int) -> Option<int> {
    or_opt(hex_number_at(s, pos), dec_number_at(s, pos))
}

/// Matches the numeric-literal class at `pos`.
fn number_match(cs: &Vec<char>, pos: usize) -> (r: Option<usize>)
    requires
        pos <= cs@.len(),
    ensures
        match r {
            Some(l) => number_at(cs@, pos as int) == Some(l as int) && 1 <= l && pos + l
                <= cs@.len(),
            None => number_at(cs@, pos as int) is None,
        },
{
    let n = cs.len();
    if pos < n && cs[pos] == '0' && pos + 1 < n && cs[pos + 1] == 'x' {
        let h = hex_run(cs, pos + 2);
        if h > pos + 2 {
            return Some(h - pos);
        }
    }
    let d = digit_run(cs, pos);
    if d == pos {
        return None;
    }
    let mut e: usize = d;
    if d < n && cs[d] == '.' {
        e = digit_run(cs, d + 1);
    }
    if e < n && (cs[e] == 'e' || cs[e] == 'E') {
        let p: usize = if e + 1 < n && (cs[e + 1] == '+' || cs[e + 1] == '-') {
            e + 2
        } else {
            e + 1
        };
        let x = digit_run(cs, p);
        if x > p {
            e = x;
        }
    }
    if e < n && (cs[e] == 'f' || cs[e] == 'u') {
        e = e + 1;
    }
    Some(e - pos)
}

// ---------------------------------------------------------------------------
// Operators, punctuation, identifiers
// ---------------------------------------------------------------------------

/// Length of the maximal operator-character run at `pos`, if non-empty.
pub open spec fn op_at(s: Seq<char>, pos: int) -> Option<int> {
    let e = run_end(s, pos, op_cls());
    if e > pos {
        Some(e - pos)
    } else {
        None
    }
}

/// A single punctuation character at `pos`.
pub open spec fn punct_at(s: Seq<char>, pos: int) -> Option<int> {
    if 0 <= pos < s.len() && is_punct(s[pos]) {
        Some(1)
    } else {
        None
    }
}

/// Length of the identifier at `pos`: a letter or underscore followed by
/// the maximal run of word characters.
pub open spec fn ident_at(s: Seq<char>, pos: int) -> Option<int> {
    if 0 <= pos < s.len() && is_ident_start(s[pos]) {
        Some(run_end(s, pos, word_cls()) - pos)
    } else {
        None
    }
}

/// Matches the operator class at `pos`.
fn op_match(cs: &Vec<char>, pos: usize) -> (r: Option<usize>)
    requires
        pos <= cs@.len(),
    ensures
        match r {
            Some(l) => op_at(cs@, pos as int) == Some(l as int) && 1 <= l && pos + l <= cs@.len(),
            None => op_at(cs@, pos as int) is None,
        },
{
    let e = op_run(cs, pos);
    if e > pos {
        Some(e - pos)
    } else {
        None
    }
}

/// Matches the punctuation class at `pos`.
fn punct_match(cs: &Vec<char>, pos: usize) -> (r: Option<usize>)
    requires
        pos <= cs@.len(),
    ensures
        match r {
            Some(l) => punct_at(cs@, pos as int) == Some(l as int) && 1 <= l && pos + l
                <= cs@.len(),
            None => punct_at(cs@, pos as int) is None,
        },
{
    if pos < cs.len() && punct_char(cs[pos]) {
        Some(1)
    } else {
        None
    }
}

/// Matches the identifier class at `pos`.
fn ident_match(cs: &Vec<char>, pos: usize) -> (r: Option<usize>)
    requires
        pos <= cs@.len(),
    ensures
        match r {
            Some(l) => ident_at(cs@, pos as int) == Some(l as int) && 1 <= l && pos + l
                <= cs@.len(),
            None => ident_at(cs@, pos as int) is None,
        },
{
    if pos < cs.len() && ident_start_char(cs[pos]) {
        let e = word_run(cs, pos);
        assert(e > pos) by {
            assert(run_end(cs@, pos as int, word_cls()) == run_end(
                cs@,
                pos as int + 1,
                word_cls(),
            ));
            lemma_run_end_bounds(cs@, pos as int + 1, word_cls());
        }
        Some(e - pos)
    } else {
        None
    }
}

// ---------------------------------------------------------------------------
// The scanner
// ---------------------------------------------------------------------------

/// Length of the token at `pos`, trying the classes in priority order.
pub open spec fn class_at(s: Seq<char>, pos: int) -> Option<int> {
    or_opt(
        type_at(s, pos),
        or_opt(
            attr_at(s, pos),
            or_opt(
                keyword_at(s, pos),
                or_opt(
                    number_at(s, pos),
                    or_opt(op_at(s, pos), or_opt(punct_at(s, pos), ident_at(s, pos))),
                ),
            ),
        ),
    )
}

/// Matches the highest-priority class at `pos`.
fn class_match(cs: &Vec<char>, pos: usize) -> (r: Option<usize>)
    requires
        pos <= cs@.len(),
    ensures
        match r {
            Some(l) => class_at(cs@, pos as int) == Some(l as int) && 1 <= l && pos + l
                <= cs@.len(),
            None => class_at(cs@, pos as int) is None,
        },
{
    if let Some(l) = type_match(cs, pos) {
        return Some(l);
    }
    if let Some(l) = attr_match(cs, pos) {
        return Some(l);
    }
    if let Some(l) = keyword_match(cs, pos) {
        return Some(l);
    }
    if let Some(l) = number_match(cs, pos) {
        return Some(l);
    }
    if let Some(l) = op_match(cs, pos) {
        return Some(l);
    }
    if let Some(l) = punct_match(cs, pos) {
        return Some(l);
    }
    if let Some(l) = ident_match(cs, pos) {
        return Some(l);
    }
    None
}

/// The tokens of the suffix of `s` that starts at `pos`: whitespace and
/// unmatched characters are skipped, and each token is the slice matched
/// by the highest-priority class at its offset.
pub open spec fn tok_from(s: Seq<char>, pos: int) -> Seq<Seq<char>>
    decreases s.len() - pos, 0int,
{
    if pos < 0 || pos >= s.len() {
        Seq::empty()
    } else if is_ws(s[pos]) {
        tok_from(s, pos + 1)
    } else {
        match class_at(s, pos) {
            Some(l) => if 1 <= l && pos + l <= s.len() {
                seq![s.subrange(pos, pos + l)] + tok_from(s, pos + l)
            } else {
                tok_from(s, pos + 1)
            },
            None => tok_from(s, pos + 1),
        }
    }
}

/// The token sequence of `s`.
pub open spec fn tokenize_spec(s: Seq<char>) -> Seq<Seq<char>> {
    tok_from(s, 0)
}

/// Scans `s` and returns its tokens, left to right.
pub fn tokenize_str(s: &str) -> (toks: Vec<String>)
    ensures
        toks.deep_view() == tokenize_spec(s@),
{
    let cs = chars_of(s);
    let n = cs.len();
    let mut toks: Vec<String> = Vec::new();
    let mut pos: usize = 0;
    while pos < n
        invariant
            cs@ == s@,
            n == cs@.len(),
            pos <= n,
            toks.deep_view() + tok_from(s@, pos as int) == tokenize_spec(s@),
        decreases n - pos,
    {
        if ws_char(cs[pos]) {
            pos = pos + 1;
        } else {
            match class_match(&cs, pos) {
                Some(l) => {
                    let sub = s.substring_char(pos, pos + l);
                    let t = sub.to_string();
                    let ghost old_toks = toks.deep_view();
                    toks.push(t);
                    proof {
                        assert(t@ == s@.subrange(pos as int, pos + l as int));
                        assert(toks.deep_view() =~= old_toks.push(t@));
                        assert(old_toks.push(t@) + tok_from(s@, pos + l as int) =~= old_toks + (
                        seq![s@.subrange(pos as int, pos + l as int)] + tok_from(
                            s@,
                            pos + l as int,
                        )));
                    }
                    pos = pos + l;
                },
                None => {
                    pos = pos + 1;
                },
            }
        }
    }
    toks
}

} // verus!
