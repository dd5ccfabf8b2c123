//! The token preprocessor: newline normalization and fusion of dotted
//! identifier chains, specified by `preprocessed`.
use vstd::prelude::*;

use crate::elements::{clone_strings, strings_view, Identifier, IdentifierV};
use crate::elements::LiteralV;
use crate::lexer::{
    at, block_comment_end, char_literal, comment_end, ends_with_newline, is_blank, is_digit,
    is_line_break, is_word_start, lemma_lex_newlines_apart, lemma_scans_advance, lex, lex_from,
    newline_pair, no_adjacent_newlines, number_literal, push_token, string_literal, symbol,
    whitespace_end, with_newline, word_end, word_token,
};
use crate::tokens::{tokens_view, Token, TokenV};
use crate::utils::{error_at, error_at_index, token_at, ParseError, ParseErrorKind, ParseErrorV};

verus! {

/// The names that an identifier is made of.
pub open spec fn segments(id: IdentifierV) -> Seq<Seq<char>> {
    match id {
        IdentifierV::Simple(n) => seq![n],
        IdentifierV::Compound(v) => v,
    }
}

/// Fuses the `. identifier` pairs from `j` on onto `segs`: the names and the
/// index after the chain. A dot not followed by an identifier is an error.
pub open spec fn fuse(ts: Seq<TokenV>, j: int, segs: Seq<Seq<char>>) -> Result<
    (Seq<Seq<char>>, int),
    ParseErrorV,
>
    decreases ts.len() - j,
{
    if 0 <= j < ts.len() && ts[j] is Dot {
        if j + 1 < ts.len() && ts[j + 1] is Identifier {
            fuse(ts, j + 2, segs + segments(ts[j + 1]->Identifier_0))
        } else {
            Err(error_at(ParseErrorKind::ExpectedIdentifierAfterDot, ts, j + 1))
        }
    } else {
        Ok((segs, j))
    }
}

pub open spec fn opens_group(t: TokenV) -> bool {
    t is OpenParen || t is OpenBrace || t is OpenSquareBracket || t is ListSeparator
}

/// The preprocessed tokens of `ts` from `i` on, after the output `out` of what
/// came before: repeated newlines collapsed, a newline after an opening bracket
/// or a comma dropped, and dotted identifier chains fused.
pub open spec fn preprocess_from(ts: Seq<TokenV>, i: int, out: Seq<TokenV>) -> Result<
    Seq<TokenV>,
    ParseErrorV,
>
    decreases ts.len() - i,
{
    if i < 0 || i >= ts.len() {
        Ok(out)
    } else {
        let t = ts[i];
        if t is Newline {
            if ends_with_newline(out) {
                preprocess_from(ts, i + 1, out)
            } else {
                preprocess_from(ts, i + 1, out.push(t))
            }
        } else if opens_group(t) {
            if i + 1 < ts.len() && ts[i + 1] is Newline {
                preprocess_from(ts, i + 2, out.push(t))
            } else {
                preprocess_from(ts, i + 1, out.push(t))
            }
        } else if t is Identifier && i + 1 < ts.len() && ts[i + 1] is Dot {
            match fuse(ts, i + 1, segments(t->Identifier_0)) {
                Ok((segs, j)) => {
                    proof {
                        lemma_fuse_bounds(ts, i + 1, segments(t->Identifier_0));
                    }
                    preprocess_from(
                        ts,
                        j,
                        out.push(TokenV::Identifier(IdentifierV::Compound(segs))),
                    )
                },
                Err(e) => Err(e),
            }
        } else {
            preprocess_from(ts, i + 1, out.push(t))
        }
    }
}

pub open spec fn preprocessed(ts: Seq<TokenV>) -> Result<Seq<TokenV>, ParseErrorV> {
    preprocess_from(ts, 0, seq![])
}

/// The names that `id` is made of.
fn identifier_segments(id: &Identifier) -> (r: Vec<String>)
    ensures
        strings_view(r@) == segments(id@),
{
    match id {
        Identifier::Simple(n) => {
            let mut r: Vec<String> = Vec::new();
            r.push(n.clone());
            proof {
                assert(strings_view(r@) =~= seq![n@]);
            }
            r
        },
        Identifier::Compound(v) => clone_strings(v),
    }
}

/// Adds the names of `id` to `segs`.
fn append_segments(segs: &mut Vec<String>, id: &Identifier)
    ensures
        strings_view(final(segs)@) == strings_view(old(segs)@) + segments(id@),
{
    let more = identifier_segments(id);
    let mut k: usize = 0;
    while k < more.len()
        invariant
            k <= more.len(),
            strings_view(segs@) == strings_view(old(segs)@) + strings_view(more@).take(k as int),
        decreases more.len() - k,
    {
        let ghost before = segs@;
        segs.push(more[k].clone());
        proof {
            assert(strings_view(segs@) =~= strings_view(before).push(more@[k as int]@));
            assert(strings_view(more@).take(k as int + 1) =~= strings_view(more@).take(
                k as int,
            ).push(more@[k as int]@));
        }
        k += 1;
    }
    proof {
        assert(strings_view(more@).take(more.len() as int) =~= strings_view(more@));
    }
}

/// Fuses the identifier `first` with the `. identifier` pairs that follow it
/// from `pos` on into one compound identifier token.
pub fn combine_compound_identifier(first: &Identifier, tokens: &[Token], pos: &mut usize) -> (r:
    Result<Token, ParseError>)
    requires
        *old(pos) <= tokens.len(),
    ensures
        match fuse(tokens_view(tokens@), *old(pos) as int, segments(first@)) {
            Ok((segs, j)) => r is Ok && r->Ok_0@ == TokenV::Identifier(IdentifierV::Compound(segs))
                && *final(pos) == j,
            Err(e) => r is Err && r->Err_0@ == e,
        },
{
    let ghost ts = tokens_view(tokens@);
    let mut segs = identifier_segments(first);
    let mut j: usize = *pos;
    while j < tokens.len() && matches!(token_at(tokens, j), Token::Dot)
        invariant
            j <= tokens.len(),
            ts == tokens_view(tokens@),
            fuse(ts, j as int, strings_view(segs@)) == fuse(ts, *old(pos) as int, segments(first@)),
        decreases tokens.len() - j,
    {
        if j + 1 < tokens.len() {
            match token_at(tokens, j + 1) {
                Token::Identifier(id) => {
                    append_segments(&mut segs, id);
                    j += 2;
                },
                _ => {
                    return Err(error_at_index(ParseErrorKind::ExpectedIdentifierAfterDot, tokens, j + 1));
                },
            }
        } else {
            return Err(error_at_index(ParseErrorKind::ExpectedIdentifierAfterDot, tokens, j + 1));
        }
    }
    *pos = j;
    Ok(Token::Identifier(Identifier::Compound(segs)))
}

/// Normalizes a token sequence in one forward pass: collapses repeated newlines,
/// drops a newline after an opening bracket or a comma, and fuses dotted
/// identifier chains into compound identifiers.
pub fn preprocess(input: &[Token]) -> (r: Result<Vec<Token>, ParseError>)
    ensures
        match preprocessed(tokens_view(input@)) {
            Ok(ts) => r is Ok && tokens_view(r->Ok_0@) == ts,
            Err(e) => r is Err && r->Err_0@ == e,
        },
{
    let ghost ts = tokens_view(input@);
    let mut output: Vec<Token> = Vec::new();
    let mut i: usize = 0;
    proof {
        assert(tokens_view(output@) =~= Seq::<TokenV>::empty());
    }
    while i < input.len()
        invariant
            i <= input.len(),
            ts == tokens_view(input@),
            preprocess_from(ts, i as int, tokens_view(output@)) == preprocessed(ts),
        decreases input.len() - i,
    {
        let token = token_at(input, i);
        let next_is_newline = i + 1 < input.len() && matches!(token_at(input, i + 1), Token::Newline);
        let next_is_dot = i + 1 < input.len() && matches!(token_at(input, i + 1), Token::Dot);
        match token {
            Token::Newline => {
                let last_is_newline = output.len() > 0 && matches!(
                    output[output.len() - 1],
                    Token::Newline
                );
                if !last_is_newline {
                    push_token(&mut output, Token::Newline);
                }
                i += 1;
            },
            Token::OpenParen | Token::OpenBrace | Token::OpenSquareBracket | Token::ListSeparator => {
                push_token(&mut output, token.clone());
                if next_is_newline {
                    i += 2;
                } else {
                    i += 1;
                }
            },
            Token::Identifier(id) => {
                if next_is_dot {
                    let mut j: usize = i + 1;
                    proof {
                        lemma_fuse_bounds(ts, i + 1, segments(id@));
                    }
                    match combine_compound_identifier(id, input, &mut j) {
                        Ok(t) => {
                            push_token(&mut output, t);
                            i = j;
                        },
                        Err(e) => {
                            return Err(e);
                        },
                    }
                } else {
                    push_token(&mut output, token.clone());
                    i += 1;
                }
            },
            _ => {
                push_token(&mut output, token.clone());
                i += 1;
            },
        }
    }
    Ok(output)
}

/// Whether `b` may directly follow `a` in preprocessed tokens.
pub open spec fn adjacent_ok(a: TokenV, b: TokenV) -> bool {
    !(a is Newline && b is Newline) && !(opens_group(a) && b is Newline) && !(a is Identifier
        && b is Dot)
}

/// The shape of preprocessed tokens: no newline after a newline, an opening
/// bracket or a comma, and no dot after an identifier.
pub open spec fn normalized(ts: Seq<TokenV>) -> bool {
    forall|k: int| 0 <= k && k + 1 < ts.len() ==> #[trigger] adjacent_ok(ts[k], ts[k + 1])
}

/// What the input at `i` may be, given the last output token.
pub open spec fn compatible(last: TokenV, ts: Seq<TokenV>, i: int) -> bool {
    &&& opens_group(last) ==> !(0 <= i < ts.len() && ts[i] is Newline)
    &&& last is Identifier ==> !(0 <= i < ts.len() && ts[i] is Dot)
}

proof fn lemma_fuse_stops_at_non_dot(ts: Seq<TokenV>, j: int, segs: Seq<Seq<char>>)
    requires
        0 <= j,
    ensures
        fuse(ts, j, segs) is Ok ==> ({
            let e = (fuse(ts, j, segs)->Ok_0).1;
            !(0 <= e < ts.len() && ts[e] is Dot)
        }),
    decreases ts.len() - j,
{
    if 0 <= j < ts.len() && ts[j] is Dot && j + 1 < ts.len() && ts[j + 1] is Identifier {
        lemma_fuse_stops_at_non_dot(ts, j + 2, segs + segments(ts[j + 1]->Identifier_0));
    }
}

proof fn lemma_push_normalized(out: Seq<TokenV>, t: TokenV)
    requires
        normalized(out),
        out.len() > 0 ==> adjacent_ok(out.last(), t),
    ensures
        normalized(out.push(t)),
{
    let r = out.push(t);
    assert forall|k: int| 0 <= k && k + 1 < r.len() implies #[trigger] adjacent_ok(
        r[k],
        r[k + 1],
    ) by {
        if k + 1 < out.len() {
            assert(r[k] == out[k] && r[k + 1] == out[k + 1]);
        } else {
            assert(r[k] == out.last());
        }
    }
}

proof fn lemma_preprocess_from_normalized(ts: Seq<TokenV>, i: int, out: Seq<TokenV>)
    requires
        0 <= i,
        no_adjacent_newlines(ts),
        normalized(out),
        out.len() > 0 ==> compatible(out.last(), ts, i),
    ensures
        preprocess_from(ts, i, out) is Ok ==> normalized(preprocess_from(ts, i, out)->Ok_0),
    decreases ts.len() - i,
{
    if i < ts.len() {
        let t = ts[i];
        if t is Newline {
            if !ends_with_newline(out) {
                lemma_push_normalized(out, t);
                lemma_preprocess_from_normalized(ts, i + 1, out.push(t));
            } else {
                lemma_preprocess_from_normalized(ts, i + 1, out);
            }
        } else if opens_group(t) {
            lemma_push_normalized(out, t);
            if i + 1 < ts.len() && ts[i + 1] is Newline {
                if i + 2 < ts.len() {
                    assert(!newline_pair(ts[i + 1], ts[i + 2]));
                }
                lemma_preprocess_from_normalized(ts, i + 2, out.push(t));
            } else {
                lemma_preprocess_from_normalized(ts, i + 1, out.push(t));
            }
        } else if t is Identifier && i + 1 < ts.len() && ts[i + 1] is Dot {
            let segs0 = segments(t->Identifier_0);
            lemma_fuse_bounds(ts, i + 1, segs0);
            lemma_fuse_stops_at_non_dot(ts, i + 1, segs0);
            if let Ok((segs, j)) = fuse(ts, i + 1, segs0) {
                let u = TokenV::Identifier(IdentifierV::Compound(segs));
                lemma_push_normalized(out, u);
                lemma_preprocess_from_normalized(ts, j, out.push(u));
            }
        } else {
            lemma_push_normalized(out, t);
            lemma_preprocess_from_normalized(ts, i + 1, out.push(t));
        }
    }
}

proof fn lemma_normalized_is_fixed(ts: Seq<TokenV>, i: int)
    requires
        normalized(ts),
        0 <= i <= ts.len(),
    ensures
        preprocess_from(ts, i, ts.take(i)) == Ok::<Seq<TokenV>, ParseErrorV>(ts),
    decreases ts.len() - i,
{
    if i == ts.len() {
        assert(ts.take(i) == ts);
    } else {
        let t = ts[i];
        assert(ts.take(i).push(t) == ts.take(i + 1));
        if i > 0 {
            let k = i - 1;
            assert(adjacent_ok(ts[k], ts[k + 1]));
            assert(ts.take(i).last() == ts[k]);
        }
        if i + 1 < ts.len() {
            assert(adjacent_ok(ts[i], ts[i + 1]));
        }
        lemma_normalized_is_fixed(ts, i + 1);
    }
}

/// Preprocessing the tokens of a source text is idempotent: preprocessing
/// its preprocessed tokens again gives the same tokens.
pub proof fn lemma_preprocess_idempotent(s: Seq<char>)
    requires
        lex(s) is Ok,
        preprocessed(lex(s)->Ok_0) is Ok,
    ensures
        preprocessed(preprocessed(lex(s)->Ok_0)->Ok_0) == preprocessed(lex(s)->Ok_0),
{
    let ts = lex(s)->Ok_0;
    lemma_lex_newlines_apart(s);
    lemma_preprocess_from_normalized(ts, 0, seq![]);
    let out = preprocessed(ts)->Ok_0;
    lemma_normalized_is_fixed(out, 0);
    assert(out.take(0) == Seq::<TokenV>::empty());
}

/// An identifier is well formed when, compound, it has at least two names.
pub open spec fn identifier_well_formed(id: IdentifierV) -> bool {
    match id {
        IdentifierV::Simple(_) => true,
        IdentifierV::Compound(v) => v.len() >= 2,
    }
}

/// Every identifier token of `ts` is well formed.
pub open spec fn identifiers_well_formed(ts: Seq<TokenV>) -> bool {
    forall|k: int|
        0 <= k < ts.len() && (#[trigger] ts[k]) is Identifier ==> identifier_well_formed(
            ts[k]->Identifier_0,
        )
}

proof fn lemma_fuse_grows(ts: Seq<TokenV>, j: int, segs: Seq<Seq<char>>)
    requires
        identifiers_well_formed(ts),
    ensures
        fuse(ts, j, segs) is Ok ==> (fuse(ts, j, segs)->Ok_0).0.len() >= segs.len(),
        fuse(ts, j, segs) is Ok && 0 <= j < ts.len() && ts[j] is Dot ==> (fuse(
            ts,
            j,
            segs,
        )->Ok_0).0.len() >= segs.len() + 1,
    decreases ts.len() - j,
{
    if 0 <= j < ts.len() && ts[j] is Dot && j + 1 < ts.len() && ts[j + 1] is Identifier {
        let id = ts[j + 1]->Identifier_0;
        assert(identifier_well_formed(id));
        assert(segments(id).len() >= 1);
        lemma_fuse_grows(ts, j + 2, segs + segments(id));
    }
}

proof fn lemma_push_well_formed(out: Seq<TokenV>, t: TokenV)
    requires
        identifiers_well_formed(out),
        t is Identifier ==> identifier_well_formed(t->Identifier_0),
    ensures
        identifiers_well_formed(out.push(t)),
{
    let r = out.push(t);
    assert forall|k: int| 0 <= k < r.len() && (#[trigger] r[k]) is Identifier implies identifier_well_formed(
        r[k]->Identifier_0,
    ) by {
        if k < out.len() {
            assert(r[k] == out[k]);
        }
    }
}

proof fn lemma_preprocess_from_well_formed(ts: Seq<TokenV>, i: int, out: Seq<TokenV>)
    requires
        0 <= i,
        identifiers_well_formed(ts),
        identifiers_well_formed(out),
    ensures
        preprocess_from(ts, i, out) is Ok ==> identifiers_well_formed(
            preprocess_from(ts, i, out)->Ok_0,
        ),
    decreases ts.len() - i,
{
    if i < ts.len() {
        let t = ts[i];
        if t is Newline {
            lemma_push_well_formed(out, t);
            lemma_preprocess_from_well_formed(ts, i + 1, out);
            lemma_preprocess_from_well_formed(ts, i + 1, out.push(t));
        } else if opens_group(t) {
            lemma_push_well_formed(out, t);
            if i + 1 < ts.len() && ts[i + 1] is Newline {
                lemma_preprocess_from_well_formed(ts, i + 2, out.push(t));
            } else {
                lemma_preprocess_from_well_formed(ts, i + 1, out.push(t));
            }
        } else if t is Identifier && i + 1 < ts.len() && ts[i + 1] is Dot {
            let segs0 = segments(t->Identifier_0);
            lemma_fuse_bounds(ts, i + 1, segs0);
            lemma_fuse_grows(ts, i + 1, segs0);
            assert(segs0.len() >= 1);
            if let Ok((segs, j)) = fuse(ts, i + 1, segs0) {
                let u = TokenV::Identifier(IdentifierV::Compound(segs));
                lemma_push_well_formed(out, u);
                lemma_preprocess_from_well_formed(ts, j, out.push(u));
            }
        } else {
            lemma_push_well_formed(out, t);
            lemma_preprocess_from_well_formed(ts, i + 1, out.push(t));
        }
    }
}

/// Preprocessing keeps identifiers well formed: every compound identifier it
/// fuses has at least two names.
pub proof fn lemma_preprocess_well_formed(ts: Seq<TokenV>)
    requires
        identifiers_well_formed(ts),
    ensures
        preprocessed(ts) is Ok ==> identifiers_well_formed(preprocessed(ts)->Ok_0),
{
    lemma_preprocess_from_well_formed(ts, 0, seq![]);
}

proof fn lemma_lex_from_well_formed(s: Seq<char>, i: int, acc: Seq<TokenV>)
    requires
        identifiers_well_formed(acc),
    ensures
        lex_from(s, i, acc) is Ok ==> identifiers_well_formed(lex_from(s, i, acc)->Ok_0),
    decreases s.len() - i,
{
    if i < 0 || i >= s.len() {
        lemma_push_well_formed(acc, TokenV::EndOfModule);
    } else {
        let c = s[i];
        let next = at(s, i + 1);
        lemma_scans_advance(s, i + 1);
        match symbol(c, next) {
            Some((t, two)) => {
                lemma_push_well_formed(acc, t);
                lemma_lex_from_well_formed(
                    s,
                    if two {
                        i + 2
                    } else {
                        i + 1
                    },
                    acc.push(t),
                );
            },
            None => {
                if c == '/' {
                    lemma_lex_from_well_formed(s, block_comment_end(s, i + 2), acc);
                } else if c == '\\' {
                    if next == Some('\n') || next == Some('\r') {
                        lemma_lex_from_well_formed(s, whitespace_end(s, i + 1, false).0, acc);
                    }
                } else if c == '\'' {
                    if let Ok((l, j)) = char_literal(s, i + 1) {
                        lemma_push_well_formed(acc, TokenV::Literal(l));
                        lemma_lex_from_well_formed(s, j, acc.push(TokenV::Literal(l)));
                    }
                } else if c == '"' {
                    if let Ok((t, j)) = string_literal(s, i + 1, seq![]) {
                        let tok = TokenV::Literal(LiteralV::Str(t));
                        lemma_push_well_formed(acc, tok);
                        lemma_lex_from_well_formed(s, j, acc.push(tok));
                    }
                } else if is_digit(c) || c == '.' {
                    if let Ok((l, j)) = number_literal(s, c, i + 1) {
                        lemma_push_well_formed(acc, TokenV::Literal(l));
                        lemma_lex_from_well_formed(s, j, acc.push(TokenV::Literal(l)));
                    }
                } else if is_word_start(c) {
                    let j = word_end(s, i + 1);
                    let tok = word_token(s.subrange(i, j));
                    lemma_push_well_formed(acc, tok);
                    lemma_lex_from_well_formed(s, j, acc.push(tok));
                } else if is_blank(c) || is_line_break(c) {
                    let (j, newline) = whitespace_end(s, i + 1, is_line_break(c));
                    lemma_push_well_formed(acc, TokenV::Newline);
                    lemma_lex_from_well_formed(s, j, with_newline(acc, newline));
                } else if c == '#' {
                    lemma_lex_from_well_formed(s, comment_end(s, i + 1), acc);
                }
            },
        }
    }
}

/// The tokens of a source text, preprocessed, hold only well-formed
/// identifiers: every compound identifier has at least two names.
pub proof fn lemma_front_end_identifiers_well_formed(s: Seq<char>)
    requires
        lex(s) is Ok,
    ensures
        preprocessed(lex(s)->Ok_0) is Ok ==> identifiers_well_formed(
            preprocessed(lex(s)->Ok_0)->Ok_0,
        ),
{
    lemma_lex_from_well_formed(s, 0, seq![]);
    lemma_preprocess_well_formed(lex(s)->Ok_0);
}

pub open spec fn ends_with_end_of_module(ts: Seq<TokenV>) -> bool {
    ts.len() > 0 && ts.last() is EndOfModule
}

proof fn lemma_lex_from_ends_with_sentinel(s: Seq<char>, i: int, acc: Seq<TokenV>)
    ensures
        lex_from(s, i, acc) is Ok ==> ends_with_end_of_module(lex_from(s, i, acc)->Ok_0),
    decreases s.len() - i,
{
    if 0 <= i < s.len() {
        let c = s[i];
        let next = at(s, i + 1);
        lemma_scans_advance(s, i + 1);
        match symbol(c, next) {
            Some((t, two)) => {
                lemma_lex_from_ends_with_sentinel(
                    s,
                    if two {
                        i + 2
                    } else {
                        i + 1
                    },
                    acc.push(t),
                );
            },
            None => {
                if c == '/' {
                    lemma_lex_from_ends_with_sentinel(s, block_comment_end(s, i + 2), acc);
                } else if c == '\\' {
                    if next == Some('\n') || next == Some('\r') {
                        lemma_lex_from_ends_with_sentinel(s, whitespace_end(s, i + 1, false).0, acc);
                    }
                } else if c == '\'' {
                    if let Ok((l, j)) = char_literal(s, i + 1) {
                        lemma_lex_from_ends_with_sentinel(s, j, acc.push(TokenV::Literal(l)));
                    }
                } else if c == '"' {
                    if let Ok((t, j)) = string_literal(s, i + 1, seq![]) {
                        lemma_lex_from_ends_with_sentinel(
                            s,
                            j,
                            acc.push(TokenV::Literal(LiteralV::Str(t))),
                        );
                    }
                } else if is_digit(c) || c == '.' {
                    if let Ok((l, j)) = number_literal(s, c, i + 1) {
                        lemma_lex_from_ends_with_sentinel(s, j, acc.push(TokenV::Literal(l)));
                    }
                } else if is_word_start(c) {
                    let j = word_end(s, i + 1);
                    lemma_lex_from_ends_with_sentinel(s, j, acc.push(word_token(s.subrange(i, j))));
                } else if is_blank(c) || is_line_break(c) {
                    let (j, newline) = whitespace_end(s, i + 1, is_line_break(c));
                    lemma_lex_from_ends_with_sentinel(s, j, with_newline(acc, newline));
                } else if c == '#' {
                    lemma_lex_from_ends_with_sentinel(s, comment_end(s, i + 1), acc);
                }
            },
        }
    }
}

proof fn lemma_fuse_before_last(ts: Seq<TokenV>, j: int, segs: Seq<Seq<char>>)
    requires
        ends_with_end_of_module(ts),
        0 <= j < ts.len(),
    ensures
        fuse(ts, j, segs) is Ok ==> (fuse(ts, j, segs)->Ok_0).1 < ts.len(),
    decreases ts.len() - j,
{
    if ts[j] is Dot && j + 1 < ts.len() && ts[j + 1] is Identifier {
        assert(j + 1 != ts.len() - 1);
        lemma_fuse_before_last(ts, j + 2, segs + segments(ts[j + 1]->Identifier_0));
    }
}

proof fn lemma_preprocess_from_keeps_sentinel(ts: Seq<TokenV>, i: int, out: Seq<TokenV>)
    requires
        ends_with_end_of_module(ts),
        0 <= i < ts.len(),
    ensures
        preprocess_from(ts, i, out) is Ok ==> ends_with_end_of_module(
            preprocess_from(ts, i, out)->Ok_0,
        ),
    decreases ts.len() - i,
{
    let t = ts[i];
    if i == ts.len() - 1 {
        assert(t is EndOfModule);
    } else if t is Newline {
        lemma_preprocess_from_keeps_sentinel(ts, i + 1, out);
        lemma_preprocess_from_keeps_sentinel(ts, i + 1, out.push(t));
    } else if opens_group(t) {
        if ts[i + 1] is Newline {
            lemma_preprocess_from_keeps_sentinel(ts, i + 2, out.push(t));
        } else {
            lemma_preprocess_from_keeps_sentinel(ts, i + 1, out.push(t));
        }
    } else if t is Identifier && ts[i + 1] is Dot {
        let segs0 = segments(t->Identifier_0);
        lemma_fuse_bounds(ts, i + 1, segs0);
        lemma_fuse_before_last(ts, i + 1, segs0);
        if let Ok((segs, j)) = fuse(ts, i + 1, segs0) {
            lemma_preprocess_from_keeps_sentinel(
                ts,
                j,
                out.push(TokenV::Identifier(IdentifierV::Compound(segs))),
            );
        }
    } else {
        lemma_preprocess_from_keeps_sentinel(ts, i + 1, out.push(t));
    }
}

/// The end-of-module token is the last token of a source text's tokens, and
/// it is still the last one after preprocessing.
pub proof fn lemma_end_of_module_last(s: Seq<char>)
    ensures
        lex(s) is Ok ==> ends_with_end_of_module(lex(s)->Ok_0),
        lex(s) is Ok && preprocessed(lex(s)->Ok_0) is Ok ==> ends_with_end_of_module(
            preprocessed(lex(s)->Ok_0)->Ok_0,
        ),
{
    lemma_lex_from_ends_with_sentinel(s, 0, seq![]);
    if lex(s) is Ok {
        lemma_preprocess_from_keeps_sentinel(lex(s)->Ok_0, 0, seq![]);
    }
}

pub proof fn lemma_fuse_bounds(ts: Seq<TokenV>, j: int, segs: Seq<Seq<char>>)
    ensures
        fuse(ts, j, segs) is Ok ==> (fuse(ts, j, segs)->Ok_0).1 >= j,
        fuse(ts, j, segs) is Ok && 0 <= j < ts.len() && ts[j] is Dot ==> (fuse(
            ts,
            j,
            segs,
        )->Ok_0).1 >= j + 2,
        fuse(ts, j, segs) is Ok && 0 <= j <= ts.len() ==> (fuse(ts, j, segs)->Ok_0).1 <= ts.len(),
    decreases ts.len() - j,
{
    if 0 <= j < ts.len() && ts[j] is Dot && j + 1 < ts.len() && ts[j + 1] is Identifier {
        let id = ts[j + 1]->Identifier_0;
        lemma_fuse_bounds(ts, j + 2, segs + segments(id));
    }
}

} // verus!
