//! The vocabulary shared by tokens and syntax trees: identifiers, literals,
//! operators and keywords, with their mathematical views.
use vstd::prelude::*;
use vstd::std_specs::iter::IteratorSpec;

verus! {

/// A name in the source: `x`, or `a.b.c` once dotted chains are fused.
#[derive(Debug, PartialEq)]
pub enum Identifier {
    Simple(String),
    Compound(Vec<String>),
}

/// The mathematical value of an [`Identifier`].
pub enum IdentifierV {
    Simple(Seq<char>),
    Compound(Seq<Seq<char>>),
}

pub open spec fn strings_view(v: Seq<String>) -> Seq<Seq<char>> {
    v.map_values(|s: String| s@)
}

impl View for Identifier {
    type V = IdentifierV;

    open spec fn view(&self) -> IdentifierV {
        match self {
            Identifier::Simple(s) => IdentifierV::Simple(s@),
            Identifier::Compound(v) => IdentifierV::Compound(strings_view(v@)),
        }
    }
}

/// Copies a vector of strings, keeping every string.
pub fn clone_strings(v: &Vec<String>) -> (r: Vec<String>)
    ensures
        strings_view(r@) == strings_view(v@),
{
    let mut r: Vec<String> = Vec::new();
    let mut i: usize = 0;
    while i < v.len()
        invariant
            i <= v.len(),
            strings_view(r@) == strings_view(v@.take(i as int)),
        decreases v.len() - i,
    {
        let ghost old_r = r@;
        r.push(v[i].clone());
        proof {
            assert(v@.take(i as int + 1) == v@.take(i as int).push(v@[i as int]));
            assert(strings_view(old_r.push(v@[i as int])) =~= strings_view(old_r).push(
                v@[i as int]@,
            ));
            assert(strings_view(v@.take(i as int).push(v@[i as int])) =~= strings_view(
                v@.take(i as int),
            ).push(v@[i as int]@));
        }
        i += 1;
    }
    proof {
        assert(v@.take(v.len() as int) == v@);
    }
    r
}

impl Clone for Identifier {
    fn clone(&self) -> (r: Self)
        ensures
            r@ == self@,
    {
        match self {
            Identifier::Simple(s) => Identifier::Simple(s.clone()),
            Identifier::Compound(v) => Identifier::Compound(clone_strings(v)),
        }
    }
}

/// A literal value as written in the source.
///
/// A floating-point literal keeps its exact text (digits, point, exponent,
/// with the digit-group underscores removed), so no precision is lost here;
/// converting it to a machine float is left to the consumer.
#[derive(Debug, PartialEq)]
pub enum Literal {
    Float(String),
    Integer(i64),
    Char(char),
    String(String),
    Boolean(bool),
    Null,
}

pub enum LiteralV {
    Float(Seq<char>),
    Integer(i64),
    Char(char),
    Str(Seq<char>),
    Boolean(bool),
    Null,
}

impl View for Literal {
    type V = LiteralV;

    open spec fn view(&self) -> LiteralV {
        match self {
            Literal::Float(s) => LiteralV::Float(s@),
            Literal::Integer(n) => LiteralV::Integer(*n),
            Literal::Char(c) => LiteralV::Char(*c),
            Literal::String(s) => LiteralV::Str(s@),
            Literal::Boolean(b) => LiteralV::Boolean(*b),
            Literal::Null => LiteralV::Null,
        }
    }
}

impl Clone for Literal {
    fn clone(&self) -> (r: Self)
        ensures
            r@ == self@,
    {
        match self {
            Literal::Float(s) => Literal::Float(s.clone()),
            Literal::Integer(n) => Literal::Integer(*n),
            Literal::Char(c) => Literal::Char(*c),
            Literal::String(s) => Literal::String(s.clone()),
            Literal::Boolean(b) => Literal::Boolean(*b),
            Literal::Null => Literal::Null,
        }
    }
}

/// The word literals: `true`, `false` and `None`.
pub open spec fn literal_word(w: Seq<char>) -> Option<LiteralV> {
    if w == seq!['t', 'r', 'u', 'e'] {
        Some(LiteralV::Boolean(true))
    } else if w == seq!['f', 'a', 'l', 's', 'e'] {
        Some(LiteralV::Boolean(false))
    } else if w == seq!['N', 'o', 'n', 'e'] {
        Some(LiteralV::Null)
    } else {
        None
    }
}

#[derive(Debug, PartialEq, Eq, Structural, Clone, Copy)]
pub enum Operator {
    // Arithmetic operators
    Plus,
    Minus,
    Times,
    Divide,
    Modulo,
    Power,
    // Logical operators
    And,
    Or,
    Not,
    // Bitwise operators
    BitwiseAnd,
    BitwiseOr,
    BitwiseXor,
    BitwiseLeftShift,
    BitwiseRightShift,
    BitwiseNot,
    // Relational operators
    Equal,
    NotEqual,
    LessThan,
    GreaterThan,
    LessThanOrEqual,
    GreaterThanOrEqual,
}

#[derive(Debug, PartialEq, Eq, Structural, Clone, Copy)]
pub enum Keyword {
    Using,
    As,
    From,
    Function,
    Return,
    Variable,
    If,
    Else,
    For,
    In,
    While,
}

/// The keyword spelled by `w`, if any; keywords are case-sensitive.
pub open spec fn keyword_word(w: Seq<char>) -> Option<Keyword> {
    if w == seq!['u', 's', 'i', 'n', 'g'] {
        Some(Keyword::Using)
    } else if w == seq!['a', 's'] {
        Some(Keyword::As)
    } else if w == seq!['f', 'r', 'o', 'm'] {
        Some(Keyword::From)
    } else if w == seq!['f', 'u', 'n'] {
        Some(Keyword::Function)
    } else if w == seq!['r', 'e', 't', 'u', 'r', 'n'] {
        Some(Keyword::Return)
    } else if w == seq!['v', 'a', 'r'] {
        Some(Keyword::Variable)
    } else if w == seq!['i', 'f'] {
        Some(Keyword::If)
    } else if w == seq!['e', 'l', 's', 'e'] {
        Some(Keyword::Else)
    } else if w == seq!['f', 'o', 'r'] {
        Some(Keyword::For)
    } else if w == seq!['i', 'n'] {
        Some(Keyword::In)
    } else if w == seq!['w', 'h', 'i', 'l', 'e'] {
        Some(Keyword::While)
    } else {
        None
    }
}

/// Whether `a` and `b` hold the same characters.
pub fn same_chars(a: &[char], b: &[char]) -> (r: bool)
    ensures
        r == (a@ == b@),
{
    if a.len() != b.len() {
        return false;
    }
    let mut i: usize = 0;
    while i < a.len()
        invariant
            a.len() == b.len(),
            i <= a.len(),
            forall|k: int| 0 <= k < i ==> a@[k] == b@[k],
        decreases a.len() - i,
    {
        if a[i] != b[i] {
            return false;
        }
        i += 1;
    }
    proof {
        assert(a@ =~= b@);
    }
    true
}

/// The characters of `s` in order.
pub fn chars_of(s: &str) -> (r: Vec<char>)
    ensures
        r@ == s@,
{
    let mut it = s.chars();
    let mut r: Vec<char> = Vec::new();
    loop
        invariant
            r@ + IteratorSpec::remaining(&it) == s@,
            IteratorSpec::decrease(&it) is Some,
        decreases IteratorSpec::decrease(&it)->0,
    {
        let ghost before = IteratorSpec::remaining(&it);
        match it.next() {
            Some(c) => {
                r.push(c);
                proof {
                    assert(r@ + IteratorSpec::remaining(&it) =~= s@) by {
                        assert(before == seq![c] + before.drop_first());
                    }
                }
            },
            None => {
                proof {
                    assert(r@ + Seq::<char>::empty() == r@);
                }
                return r;
            },
        }
    }
}

/// Relies on `String::push`: appends one character.
#[verifier::external_body]
pub(crate) fn push_char(s: &mut String, c: char)
    ensures
        final(s)@ == old(s)@.push(c),
{
    s.push(c)
}

fn char_at_index(cs: &[char], i: usize) -> (c: char)
    requires
        i < cs.len(),
    ensures
        c == cs@[i as int],
{
    cs[i]
}

/// A string holding the characters of `cs`.
pub fn string_of_chars(cs: &[char]) -> (r: String)
    ensures
        r@ == cs@,
{
    let mut r = String::new();
    let mut i: usize = 0;
    while i < cs.len()
        invariant
            i <= cs.len(),
            r@ == cs@.take(i as int),
        decreases cs.len() - i,
    {
        let c: char = char_at_index(cs, i);
        push_char(&mut r, c);
        proof {
            assert(cs@.take(i as int + 1) == cs@.take(i as int).push(cs@[i as int]));
        }
        i += 1;
    }
    proof {
        assert(cs@.take(cs.len() as int) == cs@);
    }
    r
}

impl Keyword {
    /// The keyword among the characters of `w`, if they spell one.
    pub fn from_chars(w: &[char]) -> (r: Option<Keyword>)
        ensures
            r == keyword_word(w@),
    {
        if same_chars(w, &['u', 's', 'i', 'n', 'g']) {
            Some(Keyword::Using)
        } else if same_chars(w, &['a', 's']) {
            Some(Keyword::As)
        } else if same_chars(w, &['f', 'r', 'o', 'm']) {
            Some(Keyword::From)
        } else if same_chars(w, &['f', 'u', 'n']) {
            Some(Keyword::Function)
        } else if same_chars(w, &['r', 'e', 't', 'u', 'r', 'n']) {
            Some(Keyword::Return)
        } else if same_chars(w, &['v', 'a', 'r']) {
            Some(Keyword::Variable)
        } else if same_chars(w, &['i', 'f']) {
            Some(Keyword::If)
        } else if same_chars(w, &['e', 'l', 's', 'e']) {
            Some(Keyword::Else)
        } else if same_chars(w, &['f', 'o', 'r']) {
            Some(Keyword::For)
        } else if same_chars(w, &['i', 'n']) {
            Some(Keyword::In)
        } else if same_chars(w, &['w', 'h', 'i', 'l', 'e']) {
            Some(Keyword::While)
        } else {
            None
        }
    }

    /// The keyword spelled by `keyword`, if any.
    pub fn from_str(keyword: &str) -> (r: Option<Keyword>)
        ensures
            r == keyword_word(keyword@),
    {
        let w = chars_of(keyword);
        Keyword::from_chars(w.as_slice())
    }
}

impl Literal {
    /// The word literal (`true`, `false`, `None`) among the characters of `w`, if any.
    pub fn from_chars(w: &[char]) -> (r: Option<Literal>)
        ensures
            match literal_word(w@) {
                Some(l) => r is Some && r->0@ == l,
                None => r is None,
            },
    {
        if same_chars(w, &['t', 'r', 'u', 'e']) {
            Some(Literal::Boolean(true))
        } else if same_chars(w, &['f', 'a', 'l', 's', 'e']) {
            Some(Literal::Boolean(false))
        } else if same_chars(w, &['N', 'o', 'n', 'e']) {
            Some(Literal::Null)
        } else {
            None
        }
    }

    /// The word literal spelled by `literal`, if any.
    pub fn from_str(literal: &str) -> (r: Option<Literal>)
        ensures
            match literal_word(literal@) {
                Some(l) => r is Some && r->0@ == l,
                None => r is None,
            },
    {
        let w = chars_of(literal);
        Literal::from_chars(w.as_slice())
    }
}

} // verus!
