//! Parser for the textual material-description format.
//!
//! A material description is a nested key-value text: one root key naming
//! the shader class, whose value is a table of parameters. A parameter value
//! is either a string or a nested table; the library keeps the root-level
//! parameters and, one level down, the string entries of a nested table
//! (deeper tables are consumed and dropped, matching the shallow patch
//! semantics of material resolution).
//!
//! The input must be well-formed UTF-8 — the boundary decodes
//! descriptions as text, so other byte streams are rejected before
//! parsing. The whole input is then ASCII-lower-cased before tokenising,
//! so keys, shader names and values all compare case-insensitively.
//! Tokens are quoted or unquoted strings, braces, and `//` line comments
//! (recognised at token starts).
//!
//! Every executable function is proved equal to a recursive specification
//! (`spec_tokenize`, `sp_parse_doc`) of the grammar.

use vstd::prelude::*;
use crate::bytestr::{copy_bytes, lower_bytes, to_lower};

verus! {

// --- token model ---------------------------------------------------------

/// A lexical token of the format.
pub enum Token {
    Open,
    Close,
    Text(Vec<u8>),
}

/// Mathematical value of a token.
pub enum TokenModel {
    Open,
    Close,
    Text(Seq<u8>),
}

pub open spec fn token_model(t: Token) -> TokenModel {
    match t {
        Token::Open => TokenModel::Open,
        Token::Close => TokenModel::Close,
        Token::Text(v) => TokenModel::Text(v@),
    }
}

pub open spec fn tokens_model(ts: Seq<Token>) -> Seq<TokenModel> {
    ts.map_values(|t: Token| token_model(t))
}

// --- scanning ------------------------------------------------------------

/// Space, tab, line feed or carriage return.
pub open spec fn is_ws(b: u8) -> bool {
    b == 32 || b == 9 || b == 10 || b == 13
}

/// A byte that ends an unquoted token.
pub open spec fn is_break(b: u8) -> bool {
    is_ws(b) || b == 123 || b == 125 || b == 34
}

/// Index of the first line feed, or the length when there is none.
pub open spec fn line_end(s: Seq<u8>) -> nat
    decreases s.len(),
{
    if s.len() == 0 {
        0
    } else if s[0] == 10 {
        0
    } else {
        (1 + line_end(s.skip(1))) as nat
    }
}

/// Index of the first double quote, or the length when there is none.
pub open spec fn quote_end(s: Seq<u8>) -> nat
    decreases s.len(),
{
    if s.len() == 0 {
        0
    } else if s[0] == 34 {
        0
    } else {
        (1 + quote_end(s.skip(1))) as nat
    }
}

/// Index of the first break byte, or the length when there is none.
pub open spec fn word_end(s: Seq<u8>) -> nat
    decreases s.len(),
{
    if s.len() == 0 {
        0
    } else if is_break(s[0]) {
        0
    } else {
        (1 + word_end(s.skip(1))) as nat
    }
}

proof fn lemma_line_end_le(s: Seq<u8>)
    ensures
        line_end(s) <= s.len(),
    decreases s.len(),
{
    if s.len() > 0 && s[0] != 10 {
        lemma_line_end_le(s.skip(1));
    }
}

proof fn lemma_quote_end_le(s: Seq<u8>)
    ensures
        quote_end(s) <= s.len(),
    decreases s.len(),
{
    if s.len() > 0 && s[0] != 34 {
        lemma_quote_end_le(s.skip(1));
    }
}

proof fn lemma_word_end_le(s: Seq<u8>)
    ensures
        word_end(s) <= s.len(),
    decreases s.len(),
{
    if s.len() > 0 && !is_break(s[0]) {
        lemma_word_end_le(s.skip(1));
    }
}

proof fn lemma_line_end_at(s: Seq<u8>, k: int)
    requires
        0 <= k <= s.len(),
        forall|m: int| 0 <= m < k ==> s[m] != 10,
        k == s.len() || s[k] == 10,
    ensures
        line_end(s) == k,
    decreases k,
{
    if k > 0 {
        assert(s[0] != 10);
        lemma_line_end_at(s.skip(1), k - 1);
    }
}

proof fn lemma_quote_end_at(s: Seq<u8>, k: int)
    requires
        0 <= k <= s.len(),
        forall|m: int| 0 <= m < k ==> s[m] != 34,
        k == s.len() || s[k] == 34,
    ensures
        quote_end(s) == k,
    decreases k,
{
    if k > 0 {
        assert(s[0] != 34);
        lemma_quote_end_at(s.skip(1), k - 1);
    }
}

proof fn lemma_word_end_at(s: Seq<u8>, k: int)
    requires
        0 <= k <= s.len(),
        forall|m: int| 0 <= m < k ==> !is_break(s[m]),
        k == s.len() || is_break(s[k]),
    ensures
        word_end(s) == k,
    decreases k,
{
    if k > 0 {
        assert(!is_break(s[0]));
        lemma_word_end_at(s.skip(1), k - 1);
    }
}

/// First line feed at or after `from`, or the input's end.
fn scan_newline(s: &[u8], from: usize) -> (r: usize)
    requires
        from <= s@.len(),
    ensures
        from <= r <= s@.len(),
        forall|m: int| from <= m < r ==> s@[m] != 10,
        r == s@.len() || s@[r as int] == 10,
    decreases s@.len() - from,
{
    let mut j = from;
    while j < s.len() && s[j] != 10
        invariant
            from <= j <= s@.len(),
            forall|m: int| from <= m < j ==> s@[m] != 10,
        decreases s.len() - j,
    {
        j = j + 1;
    }
    j
}

/// First double quote at or after `from`, or the input's end.
fn scan_quote(s: &[u8], from: usize) -> (r: usize)
    requires
        from <= s@.len(),
    ensures
        from <= r <= s@.len(),
        forall|m: int| from <= m < r ==> s@[m] != 34,
        r == s@.len() || s@[r as int] == 34,
{
    let mut j = from;
    while j < s.len() && s[j] != 34
        invariant
            from <= j <= s@.len(),
            forall|m: int| from <= m < j ==> s@[m] != 34,
        decreases s.len() - j,
    {
        j = j + 1;
    }
    j
}

/// First break byte at or after `from`, or the input's end.
fn scan_word_end(s: &[u8], from: usize) -> (r: usize)
    requires
        from <= s@.len(),
    ensures
        from <= r <= s@.len(),
        forall|m: int| from <= m < r ==> !is_break(s@[m]),
        r == s@.len() || is_break(s@[r as int]),
{
    let mut j = from;
    while j < s.len() && !(s[j] == 32 || s[j] == 9 || s[j] == 10 || s[j] == 13 || s[j] == 123
        || s[j] == 125 || s[j] == 34)
        invariant
            from <= j <= s@.len(),
            forall|m: int| from <= m < j ==> !is_break(s@[m]),
        decreases s.len() - j,
    {
        j = j + 1;
    }
    j
}


// --- text validity -------------------------------------------------------

/// A UTF-8 continuation byte.
pub open spec fn utf8_cont(b: u8) -> bool {
    0x80 <= b && b <= 0xBF
}

/// The input is well-formed UTF-8 text: the shortest-form, surrogate-free
/// encoding that text decoding at this boundary accepts. Descriptions are
/// text, so any other byte stream is rejected before parsing.
pub open spec fn sp_is_utf8(s: Seq<u8>) -> bool
    decreases s.len(),
{
    if s.len() == 0 {
        true
    } else {
        let b0 = s[0];
        if b0 < 0x80 {
            sp_is_utf8(s.skip(1))
        } else if 0xC2 <= b0 && b0 <= 0xDF {
            if s.len() >= 2 && utf8_cont(s[1]) {
                sp_is_utf8(s.skip(2))
            } else {
                false
            }
        } else if b0 == 0xE0 {
            if s.len() >= 3 && 0xA0 <= s[1] && s[1] <= 0xBF && utf8_cont(s[2]) {
                sp_is_utf8(s.skip(3))
            } else {
                false
            }
        } else if (0xE1 <= b0 && b0 <= 0xEC) || b0 == 0xEE || b0 == 0xEF {
            if s.len() >= 3 && utf8_cont(s[1]) && utf8_cont(s[2]) {
                sp_is_utf8(s.skip(3))
            } else {
                false
            }
        } else if b0 == 0xED {
            if s.len() >= 3 && 0x80 <= s[1] && s[1] <= 0x9F && utf8_cont(s[2]) {
                sp_is_utf8(s.skip(3))
            } else {
                false
            }
        } else if b0 == 0xF0 {
            if s.len() >= 4 && 0x90 <= s[1] && s[1] <= 0xBF && utf8_cont(s[2]) && utf8_cont(
                s[3],
            ) {
                sp_is_utf8(s.skip(4))
            } else {
                false
            }
        } else if 0xF1 <= b0 && b0 <= 0xF3 {
            if s.len() >= 4 && utf8_cont(s[1]) && utf8_cont(s[2]) && utf8_cont(s[3]) {
                sp_is_utf8(s.skip(4))
            } else {
                false
            }
        } else if b0 == 0xF4 {
            if s.len() >= 4 && 0x80 <= s[1] && s[1] <= 0x8F && utf8_cont(s[2]) && utf8_cont(
                s[3],
            ) {
                sp_is_utf8(s.skip(4))
            } else {
                false
            }
        } else {
            false
        }
    }
}

/// Check that the bytes are well-formed UTF-8 text; mirrors `sp_is_utf8`.
pub fn is_utf8(s: &[u8]) -> (r: bool)
    ensures
        r == sp_is_utf8(s@),
{
    let n = s.len();
    let mut i: usize = 0;
    proof {
        assert(s@.skip(0) =~= s@);
    }
    while i < n
        invariant
            i <= n,
            n == s@.len(),
            sp_is_utf8(s@) == sp_is_utf8(s@.skip(i as int)),
        decreases n - i,
    {
        let ghost pre = s@.skip(i as int);
        proof {
            assert(forall|m: int| 0 <= m < pre.len() ==> pre[m] == s@[i + m]);
        }
        let b0 = s[i];
        if b0 < 0x80 {
            proof {
                assert(pre.skip(1) =~= s@.skip(i + 1));
            }
            i = i + 1;
        } else if 0xC2 <= b0 && b0 <= 0xDF {
            if !(n - i >= 2 && 0x80 <= s[i + 1] && s[i + 1] <= 0xBF) {
                return false;
            }
            proof {
                assert(pre.skip(2) =~= s@.skip(i + 2));
            }
            i = i + 2;
        } else if b0 == 0xE0 {
            if !(n - i >= 3 && 0xA0 <= s[i + 1] && s[i + 1] <= 0xBF && 0x80 <= s[i + 2] && s[i + 2]
                <= 0xBF) {
                return false;
            }
            proof {
                assert(pre.skip(3) =~= s@.skip(i + 3));
            }
            i = i + 3;
        } else if (0xE1 <= b0 && b0 <= 0xEC) || b0 == 0xEE || b0 == 0xEF {
            if !(n - i >= 3 && 0x80 <= s[i + 1] && s[i + 1] <= 0xBF && 0x80 <= s[i + 2] && s[i + 2]
                <= 0xBF) {
                return false;
            }
            proof {
                assert(pre.skip(3) =~= s@.skip(i + 3));
            }
            i = i + 3;
        } else if b0 == 0xED {
            if !(n - i >= 3 && 0x80 <= s[i + 1] && s[i + 1] <= 0x9F && 0x80 <= s[i + 2] && s[i + 2]
                <= 0xBF) {
                return false;
            }
            proof {
                assert(pre.skip(3) =~= s@.skip(i + 3));
            }
            i = i + 3;
        } else if b0 == 0xF0 {
            if !(n - i >= 4 && 0x90 <= s[i + 1] && s[i + 1] <= 0xBF && 0x80 <= s[i + 2] && s[i + 2]
                <= 0xBF && 0x80 <= s[i + 3] && s[i + 3] <= 0xBF) {
                return false;
            }
            proof {
                assert(pre.skip(4) =~= s@.skip(i + 4));
            }
            i = i + 4;
        } else if 0xF1 <= b0 && b0 <= 0xF3 {
            if !(n - i >= 4 && 0x80 <= s[i + 1] && s[i + 1] <= 0xBF && 0x80 <= s[i + 2] && s[i + 2]
                <= 0xBF && 0x80 <= s[i + 3] && s[i + 3] <= 0xBF) {
                return false;
            }
            proof {
                assert(pre.skip(4) =~= s@.skip(i + 4));
            }
            i = i + 4;
        } else if b0 == 0xF4 {
            if !(n - i >= 4 && 0x80 <= s[i + 1] && s[i + 1] <= 0x8F && 0x80 <= s[i + 2] && s[i + 2]
                <= 0xBF && 0x80 <= s[i + 3] && s[i + 3] <= 0xBF) {
                return false;
            }
            proof {
                assert(pre.skip(4) =~= s@.skip(i + 4));
            }
            i = i + 4;
        } else {
            return false;
        }
    }
    proof {
        assert(s@.skip(n as int) =~= Seq::<u8>::empty());
    }
    true
}

// --- tokenizer -----------------------------------------------------------

/// The token sequence of `s`: whitespace separates tokens, `//` starts a
/// line comment, `{` and `}` delimit tables, a quoted string is taken to
/// the closing quote (or the input's end), and any other run of non-break
/// bytes is one unquoted token.
pub open spec fn spec_tokenize(s: Seq<u8>) -> Seq<TokenModel>
    decreases s.len(),
    via spec_tokenize_decreases
{
    if s.len() == 0 {
        Seq::<TokenModel>::empty()
    } else if is_ws(s[0]) {
        spec_tokenize(s.skip(1))
    } else if s.len() >= 2 && s[0] == 47 && s[1] == 47 {
        spec_tokenize(s.skip(line_end(s) as int))
    } else if s[0] == 123 {
        seq![TokenModel::Open] + spec_tokenize(s.skip(1))
    } else if s[0] == 125 {
        seq![TokenModel::Close] + spec_tokenize(s.skip(1))
    } else if s[0] == 34 {
        let q = quote_end(s.skip(1)) as int;
        let consumed = if q < s.len() - 1 {
            q + 2
        } else {
            q + 1
        };
        seq![TokenModel::Text(s.skip(1).take(q))] + spec_tokenize(s.skip(consumed))
    } else {
        let n = word_end(s) as int;
        seq![TokenModel::Text(s.take(n))] + spec_tokenize(s.skip(n))
    }
}

#[via_fn]
proof fn spec_tokenize_decreases(s: Seq<u8>) {
    if s.len() != 0 && !is_ws(s[0]) {
        if s.len() >= 2 && s[0] == 47 && s[1] == 47 {
            lemma_line_end_le(s);
            assert(s[0] != 10);
            assert(line_end(s) == 1 + line_end(s.skip(1)));
        } else if s[0] == 123 || s[0] == 125 {
        } else if s[0] == 34 {
            lemma_quote_end_le(s.skip(1));
        } else {
            lemma_word_end_le(s);
            assert(!is_break(s[0]));
            assert(word_end(s) == 1 + word_end(s.skip(1)));
        }
    }
}

/// Split `s` into its tokens.
pub fn tokenize(s: &[u8]) -> (r: Vec<Token>)
    ensures
        tokens_model(r@) == spec_tokenize(s@),
{
    let mut toks: Vec<Token> = Vec::new();
    let mut i: usize = 0;
    proof {
        assert(s@.skip(0) =~= s@);
    }
    while i < s.len()
        invariant
            i <= s@.len(),
            tokens_model(toks@) + spec_tokenize(s@.skip(i as int)) == spec_tokenize(s@),
        decreases s.len() - i,
    {
        let ghost pre = s@.skip(i as int);
        proof {
            assert(forall|m: int| 0 <= m < pre.len() ==> pre[m] == s@[i + m]);
        }
        let b = s[i];
        if b == 32 || b == 9 || b == 10 || b == 13 {
            proof {
                assert(pre.skip(1) =~= s@.skip(i + 1));
            }
            i = i + 1;
        } else if b == 47 && i + 1 < s.len() && s[i + 1] == 47 {
            let j = scan_newline(s, i);
            proof {
                lemma_line_end_at(pre, j - i);
                assert(pre.skip(j - i) =~= s@.skip(j as int));
            }
            i = j;
        } else if b == 123 {
            let ghost old_toks = toks@;
            toks.push(Token::Open);
            proof {
                assert(tokens_model(toks@) =~= tokens_model(old_toks).push(TokenModel::Open));
                assert(pre.skip(1) =~= s@.skip(i + 1));
                assert(tokens_model(old_toks).push(TokenModel::Open) + spec_tokenize(s@.skip(i + 1))
                    =~= tokens_model(old_toks) + (seq![TokenModel::Open] + spec_tokenize(
                    pre.skip(1),
                )));
            }
            i = i + 1;
        } else if b == 125 {
            let ghost old_toks = toks@;
            toks.push(Token::Close);
            proof {
                assert(tokens_model(toks@) =~= tokens_model(old_toks).push(TokenModel::Close));
                assert(pre.skip(1) =~= s@.skip(i + 1));
                assert(tokens_model(old_toks).push(TokenModel::Close) + spec_tokenize(
                    s@.skip(i + 1),
                ) =~= tokens_model(old_toks) + (seq![TokenModel::Close] + spec_tokenize(
                    pre.skip(1),
                )));
            }
            i = i + 1;
        } else if b == 34 {
            let j = scan_quote(s, i + 1);
            let payload = copy_bytes(&s[i + 1..j]);
            let next = if j < s.len() {
                j + 1
            } else {
                j
            };
            let ghost old_toks = toks@;
            proof {
                assert(pre.skip(1) =~= s@.skip(i + 1));
                assert(forall|m: int|
                    0 <= m < pre.len() - 1 ==> pre.skip(1)[m] == s@[i + 1 + m]);
                lemma_quote_end_at(pre.skip(1), j - (i + 1));
            }
            toks.push(Token::Text(payload));
            proof {
                let q = quote_end(pre.skip(1)) as int;
                assert(q == j - (i + 1));
                assert(pre.skip(1).take(q) =~= s@.subrange(i + 1, j as int));
                let consumed = if q < pre.len() - 1 {
                    q + 2
                } else {
                    q + 1
                };
                assert(pre.skip(consumed) =~= s@.skip(next as int));
                assert(tokens_model(toks@) =~= tokens_model(old_toks).push(
                    TokenModel::Text(pre.skip(1).take(q)),
                ));
                assert(tokens_model(old_toks).push(TokenModel::Text(pre.skip(1).take(q)))
                    + spec_tokenize(s@.skip(next as int)) =~= tokens_model(old_toks) + (seq![
                    TokenModel::Text(pre.skip(1).take(q)),
                ] + spec_tokenize(pre.skip(consumed))));
            }
            i = next;
        } else {
            let j = scan_word_end(s, i);
            proof {
                lemma_word_end_at(pre, j - i);
            }
            assert(j > i) by {
                assert(!is_break(pre[0]));
                assert(word_end(pre) == 1 + word_end(pre.skip(1)));
            }
            let payload = copy_bytes(&s[i..j]);
            let ghost old_toks = toks@;
            toks.push(Token::Text(payload));
            proof {
                let n = word_end(pre) as int;
                assert(n == j - i);
                assert(pre.take(n) =~= s@.subrange(i as int, j as int));
                assert(pre.skip(n) =~= s@.skip(j as int));
                assert(tokens_model(toks@) =~= tokens_model(old_toks).push(
                    TokenModel::Text(pre.take(n)),
                ));
                assert(tokens_model(old_toks).push(TokenModel::Text(pre.take(n))) + spec_tokenize(
                    s@.skip(j as int),
                ) =~= tokens_model(old_toks) + (seq![TokenModel::Text(pre.take(n))]
                    + spec_tokenize(pre.skip(n))));
            }
            i = j;
        }
    }
    proof {
        assert(s@.skip(s@.len() as int) =~= Seq::<u8>::empty());
        assert(spec_tokenize(s@.skip(s@.len() as int)) =~= Seq::<TokenModel>::empty());
        assert(tokens_model(toks@) =~= tokens_model(toks@) + Seq::<TokenModel>::empty());
    }
    toks
}

// --- document model ------------------------------------------------------

/// Value of one root-level parameter.
pub enum ParamValue {
    /// A plain string value.
    Str(Vec<u8>),
    /// A nested table, kept as its string entries in order.
    Sub(Vec<(Vec<u8>, Vec<u8>)>),
}

/// A parsed material description: the shader class name and the root-level
/// parameters, in file order.
pub struct MaterialDoc {
    pub shader: Vec<u8>,
    pub params: Vec<(Vec<u8>, ParamValue)>,
}

/// Mathematical value of a nested-table entry list.
pub open spec fn pairs_model(v: Seq<(Vec<u8>, Vec<u8>)>) -> Seq<(Seq<u8>, Seq<u8>)> {
    v.map_values(|p: (Vec<u8>, Vec<u8>)| (p.0@, p.1@))
}

/// Mathematical value of a parameter value.
pub enum ValModel {
    Str(Seq<u8>),
    Sub(Seq<(Seq<u8>, Seq<u8>)>),
}

pub open spec fn val_model(v: ParamValue) -> ValModel {
    match v {
        ParamValue::Str(s) => ValModel::Str(s@),
        ParamValue::Sub(t) => ValModel::Sub(pairs_model(t@)),
    }
}

/// Mathematical value of a parameter list.
pub open spec fn params_model(v: Seq<(Vec<u8>, ParamValue)>) -> Seq<(Seq<u8>, ValModel)> {
    v.map_values(|p: (Vec<u8>, ParamValue)| (p.0@, val_model(p.1)))
}

/// Mathematical value of a document.
pub struct DocModel {
    pub shader: Seq<u8>,
    pub params: Seq<(Seq<u8>, ValModel)>,
}

pub open spec fn doc_model(d: MaterialDoc) -> DocModel {
    DocModel { shader: d.shader@, params: params_model(d.params@) }
}

// --- parser specification ------------------------------------------------

/// Skip forward over a table body (entered after its opening brace at
/// nesting `depth` 0) and give the index just past the matching close.
pub open spec fn sp_skip_depth(ts: Seq<TokenModel>, i: int, depth: nat) -> Option<int>
    decreases ts.len() - i,
{
    if i < 0 || i >= ts.len() {
        None
    } else {
        match ts[i] {
            TokenModel::Close => if depth == 0 {
                Some(i + 1)
            } else {
                sp_skip_depth(ts, i + 1, (depth - 1) as nat)
            },
            TokenModel::Open => sp_skip_depth(ts, i + 1, depth + 1),
            TokenModel::Text(_) => sp_skip_depth(ts, i + 1, depth),
        }
    }
}

/// Parse the string entries of a nested table from `i` up to its closing
/// brace; a deeper table is consumed and dropped. Gives the entries and the
/// index just past the close, or `None` when the token shape is malformed.
pub open spec fn sp_sub_entries(ts: Seq<TokenModel>, i: int) -> Option<
    (Seq<(Seq<u8>, Seq<u8>)>, int),
>
    decreases ts.len() - i,
{
    if i < 0 || i >= ts.len() {
        None
    } else {
        match ts[i] {
            TokenModel::Close => Some((Seq::empty(), i + 1)),
            TokenModel::Open => None,
            TokenModel::Text(k) => {
                if i + 1 >= ts.len() {
                    None
                } else {
                    match ts[i + 1] {
                        TokenModel::Text(v) => {
                            match sp_sub_entries(ts, i + 2) {
                                Option::None => None,
                                Option::Some((rest, j)) => Some((seq![(k, v)] + rest, j)),
                            }
                        },
                        TokenModel::Open => {
                            match sp_skip_depth(ts, i + 2, 0) {
                                Option::None => None,
                                Option::Some(j) => if i + 1 < j && j <= ts.len() {
                                    sp_sub_entries(ts, j)
                                } else {
                                    None
                                },
                            }
                        },
                        TokenModel::Close => None,
                    }
                }
            },
        }
    }
}

/// Parse the root-level parameters from `i` up to the root table's closing
/// brace. Gives the parameters and the index just past the close.
pub open spec fn sp_root_entries(ts: Seq<TokenModel>, i: int) -> Option<
    (Seq<(Seq<u8>, ValModel)>, int),
>
    decreases ts.len() - i,
{
    if i < 0 || i >= ts.len() {
        None
    } else {
        match ts[i] {
            TokenModel::Close => Some((Seq::empty(), i + 1)),
            TokenModel::Open => None,
            TokenModel::Text(k) => {
                if i + 1 >= ts.len() {
                    None
                } else {
                    match ts[i + 1] {
                        TokenModel::Text(v) => {
                            match sp_root_entries(ts, i + 2) {
                                Option::None => None,
                                Option::Some((rest, j)) => Some(
                                    (seq![(k, ValModel::Str(v))] + rest, j),
                                ),
                            }
                        },
                        TokenModel::Open => {
                            match sp_sub_entries(ts, i + 2) {
                                Option::None => None,
                                Option::Some((pairs, j)) => if i + 1 < j && j <= ts.len() {
                                    match sp_root_entries(ts, j) {
                                        Option::None => None,
                                        Option::Some((rest, j2)) => Some(
                                            (seq![(k, ValModel::Sub(pairs))] + rest, j2),
                                        ),
                                    }
                                } else {
                                    None
                                },
                            }
                        },
                        TokenModel::Close => None,
                    }
                }
            },
        }
    }
}

/// Parse a whole document: one root key (the shader class), an opening
/// brace, the root parameters, the closing brace, and nothing after it.
pub open spec fn sp_parse_doc(ts: Seq<TokenModel>) -> Option<DocModel> {
    if ts.len() < 2 {
        None
    } else {
        match (ts[0], ts[1]) {
            (TokenModel::Text(shader), TokenModel::Open) => {
                match sp_root_entries(ts, 2) {
                    Option::None => None,
                    Option::Some((params, j)) => if j == ts.len() {
                        Some(DocModel { shader, params })
                    } else {
                        None
                    },
                }
            },
            _ => None,
        }
    }
}

/// The document denoted by raw text: check that the bytes are text,
/// lower-case, tokenize, parse.
pub open spec fn sp_parse_text(s: Seq<u8>) -> Option<DocModel> {
    if !sp_is_utf8(s) {
        None
    } else {
        sp_parse_doc(spec_tokenize(lower_bytes(s)))
    }
}

// --- parser --------------------------------------------------------------

/// Skip a table body; mirrors `sp_skip_depth`.
fn skip_table(toks: &Vec<Token>, start: usize) -> (r: Option<usize>)
    requires
        start <= toks@.len(),
    ensures
        match r {
            Option::None => sp_skip_depth(tokens_model(toks@), start as int, 0) is None,
            Option::Some(j) => sp_skip_depth(tokens_model(toks@), start as int, 0) == Some(
                j as int,
            ) && start < j <= toks@.len(),
        },
{
    let ghost tm = tokens_model(toks@);
    let mut i = start;
    let mut depth: usize = 0;
    while i < toks.len()
        invariant
            start <= i <= toks@.len(),
            tm == tokens_model(toks@),
            sp_skip_depth(tm, start as int, 0) == sp_skip_depth(tm, i as int, depth as nat),
            depth <= i,
        decreases toks@.len() - i,
    {
        match &toks[i] {
            Token::Close => {
                if depth == 0 {
                    return Some(i + 1);
                }
                depth = depth - 1;
            },
            Token::Open => {
                depth = depth + 1;
            },
            Token::Text(_) => {},
        }
        i = i + 1;
    }
    None
}

/// Parse a nested table's entries; mirrors `sp_sub_entries`.
fn parse_sub_entries(toks: &Vec<Token>, start: usize) -> (r: Option<
    (Vec<(Vec<u8>, Vec<u8>)>, usize),
>)
    requires
        start <= toks@.len(),
    ensures
        match r {
            Option::None => sp_sub_entries(tokens_model(toks@), start as int) is None,
            Option::Some(p) => sp_sub_entries(tokens_model(toks@), start as int) == Some(
                (pairs_model(p.0@), p.1 as int),
            ) && start < p.1 <= toks@.len(),
        },
    decreases toks@.len() - start,
{
    let ghost tm = tokens_model(toks@);
    if start >= toks.len() {
        return None;
    }
    match &toks[start] {
        Token::Close => {
            proof {
                assert(pairs_model(Seq::<(Vec<u8>, Vec<u8>)>::empty()) =~= Seq::<
                    (Seq<u8>, Seq<u8>),
                >::empty());
            }
            Some((Vec::new(), start + 1))
        },
        Token::Open => None,
        Token::Text(k) => {
            if start + 1 >= toks.len() {
                return None;
            }
            let key = copy_bytes(k.as_slice());
            match &toks[start + 1] {
                Token::Text(v) => {
                    let value = copy_bytes(v.as_slice());
                    match parse_sub_entries(toks, start + 2) {
                        Option::None => None,
                        Option::Some((mut pairs, j)) => {
                            let ghost rest = pairs_model(pairs@);
                            pairs.insert(0, (key, value));
                            proof {
                                assert(pairs_model(pairs@) =~= seq![(k@, v@)] + rest);
                            }
                            Some((pairs, j))
                        },
                    }
                },
                Token::Open => {
                    match skip_table(toks, start + 2) {
                        Option::None => None,
                        Option::Some(j) => parse_sub_entries(toks, j),
                    }
                },
                Token::Close => None,
            }
        },
    }
}

/// Parse the root parameters; mirrors `sp_root_entries`.
fn parse_root_entries(toks: &Vec<Token>, start: usize) -> (r: Option<
    (Vec<(Vec<u8>, ParamValue)>, usize),
>)
    requires
        start <= toks@.len(),
    ensures
        match r {
            Option::None => sp_root_entries(tokens_model(toks@), start as int) is None,
            Option::Some(p) => sp_root_entries(tokens_model(toks@), start as int) == Some(
                (params_model(p.0@), p.1 as int),
            ) && start < p.1 <= toks@.len(),
        },
    decreases toks@.len() - start,
{
    let ghost tm = tokens_model(toks@);
    if start >= toks.len() {
        return None;
    }
    match &toks[start] {
        Token::Close => {
            proof {
                assert(params_model(Seq::<(Vec<u8>, ParamValue)>::empty()) =~= Seq::<
                    (Seq<u8>, ValModel),
                >::empty());
            }
            Some((Vec::new(), start + 1))
        },
        Token::Open => None,
        Token::Text(k) => {
            if start + 1 >= toks.len() {
                return None;
            }
            let key = copy_bytes(k.as_slice());
            match &toks[start + 1] {
                Token::Text(v) => {
                    let value = copy_bytes(v.as_slice());
                    match parse_root_entries(toks, start + 2) {
                        Option::None => None,
                        Option::Some((mut params, j)) => {
                            let ghost rest = params_model(params@);
                            params.insert(0, (key, ParamValue::Str(value)));
                            proof {
                                assert(params_model(params@) =~= seq![(k@, ValModel::Str(v@))]
                                    + rest);
                            }
                            Some((params, j))
                        },
                    }
                },
                Token::Open => {
                    match parse_sub_entries(toks, start + 2) {
                        Option::None => None,
                        Option::Some((pairs, j)) => {
                            match parse_root_entries(toks, j) {
                                Option::None => None,
                                Option::Some((mut params, j2)) => {
                                    let ghost rest = params_model(params@);
                                    let ghost pm = pairs_model(pairs@);
                                    params.insert(0, (key, ParamValue::Sub(pairs)));
                                    proof {
                                        assert(params_model(params@) =~= seq![
                                            (k@, ValModel::Sub(pm)),
                                        ] + rest);
                                    }
                                    Some((params, j2))
                                },
                            }
                        },
                    }
                },
                Token::Close => None,
            }
        },
    }
}

/// Parse raw material text into a document.
///
/// The bytes must be well-formed UTF-8 (descriptions are text, and the
/// boundary decodes them as such); the text is lower-cased, and `None` is
/// returned exactly when the input is not text or the token shape is not
/// one root key followed by one brace-delimited table.
pub fn parse_material_text(s: &[u8]) -> (r: Option<MaterialDoc>)
    ensures
        match r {
            Option::None => sp_parse_text(s@) is None,
            Option::Some(d) => sp_parse_text(s@) == Some(doc_model(d)),
        },
{
    if !is_utf8(s) {
        return None;
    }
    let lowered = to_lower(s);
    let toks = tokenize(lowered.as_slice());
    let ghost tm = tokens_model(toks@);
    if toks.len() < 2 {
        return None;
    }
    let shader = match &toks[0] {
        Token::Text(t) => copy_bytes(t.as_slice()),
        _ => {
            return None;
        },
    };
    match &toks[1] {
        Token::Open => {},
        _ => {
            return None;
        },
    }
    match parse_root_entries(&toks, 2) {
        Option::None => None,
        Option::Some((params, j)) => {
            if j == toks.len() {
                Some(MaterialDoc { shader, params })
            } else {
                None
            }
        },
    }
}

} // verus!
