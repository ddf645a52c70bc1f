//! Boolean policy expressions over permission paths, and their parser.

use vstd::prelude::*;

use crate::parser::{
    chars_of, is_word_char, is_word_character, is_word_start, is_word_start_character, path_at,
    read_path, skip_space, skip_spaces,
    PermissionItem, PermissionParseError,
};
use crate::tokenizer::FieldView;

verus! {

/// A policy: permission checks combined with `!`, `&`, `|` and `^`.
#[derive(Debug)]
pub enum ItemExpr {
    Permission(PermissionItem),
    Not(Box<ItemExpr>),
    And(Box<ItemExpr>, Box<ItemExpr>),
    Or(Box<ItemExpr>, Box<ItemExpr>),
    Xor(Box<ItemExpr>, Box<ItemExpr>),
    /// A parenthesized policy; it means what its content means.
    Bracketed(Box<ItemExpr>),
}

/// The mathematical value of an [`ItemExpr`].
pub enum ExprView {
    Permission(Seq<FieldView>),
    Not(Box<ExprView>),
    And(Box<ExprView>, Box<ExprView>),
    Or(Box<ExprView>, Box<ExprView>),
    Xor(Box<ExprView>, Box<ExprView>),
    Bracketed(Box<ExprView>),
}

impl View for ItemExpr {
    type V = ExprView;

    open spec fn view(&self) -> ExprView
        decreases self,
    {
        match self {
            ItemExpr::Permission(p) => ExprView::Permission(p@),
            ItemExpr::Not(e) => ExprView::Not(Box::new((**e)@)),
            ItemExpr::And(l, r) => ExprView::And(Box::new((**l)@), Box::new((**r)@)),
            ItemExpr::Or(l, r) => ExprView::Or(Box::new((**l)@), Box::new((**r)@)),
            ItemExpr::Xor(l, r) => ExprView::Xor(Box::new((**l)@), Box::new((**r)@)),
            ItemExpr::Bracketed(e) => ExprView::Bracketed(Box::new((**e)@)),
        }
    }
}

impl Clone for ItemExpr {
    fn clone(&self) -> (r: Self)
        ensures
            r@ == self@,
        decreases self,
    {
        match self {
            ItemExpr::Permission(p) => ItemExpr::Permission(p.clone()),
            ItemExpr::Not(e) => ItemExpr::Not(Box::new((**e).clone())),
            ItemExpr::And(l, r) => ItemExpr::And(Box::new((**l).clone()), Box::new((**r).clone())),
            ItemExpr::Or(l, r) => ItemExpr::Or(Box::new((**l).clone()), Box::new((**r).clone())),
            ItemExpr::Xor(l, r) => ItemExpr::Xor(Box::new((**l).clone()), Box::new((**r).clone())),
            ItemExpr::Bracketed(e) => ItemExpr::Bracketed(Box::new((**e).clone())),
        }
    }
}

/// The binary connectives of the policy grammar.
#[derive(Clone, Copy, PartialEq, Eq, Structural, Debug)]
pub enum Connective {
    And,
    Or,
    Xor,
}

/// The connective written at `q` and how many characters it takes:
/// `&` or `&&`, `|` or `||`, `^`.
pub open spec fn connective_at(s: Seq<char>, q: int) -> Option<(Connective, int)> {
    if !(0 <= q < s.len()) {
        None
    } else if s[q] == '&' {
        Some((Connective::And, if q + 1 < s.len() && s[q + 1] == '&' { 2 } else { 1 }))
    } else if s[q] == '|' {
        Some((Connective::Or, if q + 1 < s.len() && s[q + 1] == '|' { 2 } else { 1 }))
    } else if s[q] == '^' {
        Some((Connective::Xor, 1))
    } else {
        None
    }
}

pub open spec fn join(op: Connective, left: ExprView, right: ExprView) -> ExprView {
    match op {
        Connective::And => ExprView::And(Box::new(left), Box::new(right)),
        Connective::Or => ExprView::Or(Box::new(left), Box::new(right)),
        Connective::Xor => ExprView::Xor(Box::new(left), Box::new(right)),
    }
}

/// Whether a segment can start with `c`.
pub open spec fn starts_segment(c: char) -> bool {
    is_word_start(c) || c == '*' || c == '"' || c == '\''
}

/// Whether the word `not` at `p` negates what follows: it stands alone and
/// is followed by `(`, by `!`, or by whitespace and a segment. Elsewhere
/// `not` is a name, as in `not.read`.
pub open spec fn negation_at(s: Seq<char>, p: int) -> bool {
    let k = p + 3;
    let q = skip_space(s, k);
    &&& 0 <= p && k <= s.len()
    &&& s.subrange(p, k) == seq!['n', 'o', 't']
    &&& !(k < s.len() && is_word_char(s[k]))
    &&& 0 <= q < s.len()
    &&& (s[q] == '(' || s[q] == '!' || (q > k && starts_segment(s[q])))
}

/// The policy that starts at `pos` and the position after it.
///
/// A policy is `!` or `not` before a policy; or a parenthesized policy or a path,
/// either alone or followed by a connective and a policy. The right operand
/// extends to the end, so `a & b | c` reads as `a & (b | c)`. A parenthesized
/// policy is `Bracketed`, alone or as the left operand of a connective. (The comparisons of positions with `pos` hold whenever the
/// text is read; they record that reading moves forward.)
pub open spec fn expr_at(s: Seq<char>, pos: int) -> Result<(ExprView, int), PermissionParseError>
    decreases s.len() - pos,
{
    let p = skip_space(s, pos);
    if !(pos <= p < s.len()) {
        Err(PermissionParseError::InvalidToken { at: p as usize })
    } else if s[p] == '!' {
        match expr_at(s, p + 1) {
            Ok((x, end)) => Ok((ExprView::Not(Box::new(x)), end)),
            Err(e) => Err(e),
        }
    } else if negation_at(s, p) {
        match expr_at(s, p + 3) {
            Ok((x, end)) => Ok((ExprView::Not(Box::new(x)), end)),
            Err(e) => Err(e),
        }
    } else {
        let head: Result<(ExprView, int), PermissionParseError> = if s[p] == '(' {
            match expr_at(s, p + 1) {
                Err(e) => Err(e),
                Ok((inner, inner_end)) => {
                    let close = skip_space(s, inner_end);
                    if 0 <= close < s.len() && s[close] == ')' {
                        Ok((ExprView::Bracketed(Box::new(inner)), close + 1))
                    } else {
                        Err(PermissionParseError::InvalidToken { at: close as usize })
                    }
                },
            }
        } else {
            match path_at(s, p) {
                Err(e) => Err(e),
                Ok((fields, end)) => Ok((ExprView::Permission(fields), end)),
            }
        };
        match head {
            Err(e) => Err(e),
            Ok((left, after)) => {
                let q = skip_space(s, after);
                match connective_at(s, q) {
                    None => Ok((left, q)),
                    Some((op, width)) => if q + width > pos {
                        match expr_at(s, q + width) {
                            Err(e) => Err(e),
                            Ok((right, end)) => Ok((join(op, left, right), end)),
                        }
                    } else {
                        Err(PermissionParseError::InvalidToken { at: q as usize })
                    },
                }
            },
        }
    }
}

/// What parsing the whole of `s` as one policy gives.
pub open spec fn parse_policy(s: Seq<char>) -> Result<ExprView, PermissionParseError> {
    match expr_at(s, 0) {
        Err(e) => Err(e),
        Ok((x, end)) => if end == s.len() {
            Ok(x)
        } else {
            Err(PermissionParseError::InvalidToken { at: end as usize })
        },
    }
}

fn connective_exec(text: &Vec<char>, q: usize) -> (r: Option<(Connective, usize)>)
    requires
        q <= text.len(),
    ensures
        match r {
            Some((op, width)) => connective_at(text@, q as int) == Some((op, width as int)) && q
                + width <= text.len(),
            None => connective_at(text@, q as int) is None,
        },
{
    if q >= text.len() {
        return None;
    }
    let c = text[q];
    let doubled = q + 1 < text.len() && text[q + 1] == c;
    if c == '&' {
        Some((Connective::And, if doubled { 2 } else { 1 }))
    } else if c == '|' {
        Some((Connective::Or, if doubled { 2 } else { 1 }))
    } else if c == '^' {
        Some((Connective::Xor, 1))
    } else {
        None
    }
}

fn negation_exec(text: &Vec<char>, p: usize) -> (r: bool)
    requires
        p < text.len(),
    ensures
        r == negation_at(text@, p as int),
{
    let n = text.len();
    if n - p < 3 || text[p] != 'n' || text[p + 1] != 'o' || text[p + 2] != 't' {
        assert(n - p >= 3 ==> text@.subrange(p as int, p + 3)[0] == text@[p as int]);
        assert(n - p >= 3 ==> text@.subrange(p as int, p + 3)[1] == text@[p + 1]);
        assert(n - p >= 3 ==> text@.subrange(p as int, p + 3)[2] == text@[p + 2]);
        return false;
    }
    assert(text@.subrange(p as int, p + 3) =~= seq!['n', 'o', 't']);
    let k = p + 3;
    if k < n && is_word_character(text[k]) {
        return false;
    }
    let q = skip_spaces(text, k);
    if q >= n {
        return false;
    }
    let c = text[q];
    c == '(' || c == '!' || (q > k && (is_word_start_character(c) || c == '*' || c == '"' || c == '\''))
}

fn join_exec(op: Connective, left: ItemExpr, right: ItemExpr) -> (r: ItemExpr)
    ensures
        r@ == join(op, left@, right@),
{
    match op {
        Connective::And => ItemExpr::And(Box::new(left), Box::new(right)),
        Connective::Or => ItemExpr::Or(Box::new(left), Box::new(right)),
        Connective::Xor => ItemExpr::Xor(Box::new(left), Box::new(right)),
    }
}

fn parse_expr_at(text: &Vec<char>, pos: usize) -> (r: Result<(ItemExpr, usize), PermissionParseError>)
    requires
        pos <= text.len(),
    ensures
        match r {
            Ok((x, end)) => expr_at(text@, pos as int) == Ok::<
                (ExprView, int),
                PermissionParseError,
            >((x@, end as int)) && pos < end <= text.len(),
            Err(e) => expr_at(text@, pos as int) == Err::<(ExprView, int), PermissionParseError>(e),
        },
    decreases text.len() - pos,
{
    let p = skip_spaces(text, pos);
    if p >= text.len() {
        return Err(PermissionParseError::InvalidToken { at: p });
    }
    if text[p] == '!' {
        return match parse_expr_at(text, p + 1) {
            Ok((x, end)) => Ok((ItemExpr::Not(Box::new(x)), end)),
            Err(e) => Err(e),
        };
    }
    if negation_exec(text, p) {
        return match parse_expr_at(text, p + 3) {
            Ok((x, end)) => Ok((ItemExpr::Not(Box::new(x)), end)),
            Err(e) => Err(e),
        };
    }
    let bracketed = text[p] == '(';
    let (left, after) = if bracketed {
        match parse_expr_at(text, p + 1) {
            Err(e) => {
                return Err(e);
            },
            Ok((inner, inner_end)) => {
                let close = skip_spaces(text, inner_end);
                if close < text.len() && text[close] == ')' {
                    (ItemExpr::Bracketed(Box::new(inner)), close + 1)
                } else {
                    return Err(PermissionParseError::InvalidToken { at: close });
                }
            },
        }
    } else {
        match read_path(text, p) {
            Err(e) => {
                return Err(e);
            },
            Ok((fields, end)) => (ItemExpr::Permission(fields), end),
        }
    };
    let q = skip_spaces(text, after);
    match connective_exec(text, q) {
        None => Ok((left, q)),
        Some((op, width)) => match parse_expr_at(text, q + width) {
            Err(e) => Err(e),
            Ok((right, end)) => Ok((join_exec(op, left, right), end)),
        },
    }
}

/// Parses a whole text as one policy.
pub fn expr_parse(expr: &String) -> (r: Result<ItemExpr, PermissionParseError>)
    ensures
        match r {
            Ok(x) => parse_policy(expr@) == Ok::<ExprView, PermissionParseError>(x@),
            Err(e) => parse_policy(expr@) == Err::<ExprView, PermissionParseError>(e),
        },
{
    let text = chars_of(expr.as_str());
    match parse_expr_at(&text, 0) {
        Err(e) => Err(e),
        Ok((x, end)) => if end == text.len() {
            Ok(x)
        } else {
            Err(PermissionParseError::InvalidToken { at: end })
        },
    }
}

} // verus!
