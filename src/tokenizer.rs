//! The token vocabulary shared by the parsers and the matcher.

use vstd::prelude::*;

verus! {

/// A list-oriented action: `add`, `remove`, `read_one`, `list_all`.
#[derive(Clone, Copy, PartialEq, Eq, Structural, PartialOrd, Ord, Debug)]
pub enum ListSpecifier {
    Add,
    Remove,
    ReadOne,
    ListAll,
}

/// An action that terminates a path: `read`, `write`, `assign`, `enact`,
/// or one of the list actions.
#[derive(Clone, Copy, PartialEq, Eq, Structural, PartialOrd, Ord, Debug)]
pub enum Specifier {
    ListSpecifier { specifier: ListSpecifier },
    Read,
    Write,
    /// For `T.assign`: allows assigning permissions to anything under `T`.
    Assign,
    Enact,
}

/// One segment of a permission path.
#[derive(Debug)]
pub enum Field {
    Name { name: String },
    ID { id: i64 },
    Specifier { specifier: Specifier },
    /// Stands for one `Name` or `ID` segment.
    Glob,
    /// Stands for one segment of any kind, specifiers included.
    DoubleGlob,
    /// Stands for a run of zero or more segments of any kind; at most one per path.
    TripleGlob,
}

/// The mathematical value of a [`Field`]: a name is its sequence of characters.
pub enum FieldView {
    Name(Seq<char>),
    ID(i64),
    Specifier(Specifier),
    Glob,
    DoubleGlob,
    TripleGlob,
}

impl View for Field {
    type V = FieldView;

    open spec fn view(&self) -> FieldView {
        match self {
            Field::Name { name } => FieldView::Name(name@),
            Field::ID { id } => FieldView::ID(*id),
            Field::Specifier { specifier } => FieldView::Specifier(*specifier),
            Field::Glob => FieldView::Glob,
            Field::DoubleGlob => FieldView::DoubleGlob,
            Field::TripleGlob => FieldView::TripleGlob,
        }
    }
}

impl Clone for Field {
    fn clone(&self) -> (r: Self)
        ensures
            r@ == self@,
    {
        match self {
            Field::Name { name } => Field::Name { name: name.clone() },
            Field::ID { id } => Field::ID { id: *id },
            Field::Specifier { specifier } => Field::Specifier { specifier: *specifier },
            Field::Glob => Field::Glob,
            Field::DoubleGlob => Field::DoubleGlob,
            Field::TripleGlob => Field::TripleGlob,
        }
    }
}

impl PartialEq for Field {
    fn eq(&self, other: &Field) -> (r: bool) {
        match (self, other) {
            (Field::Name { name: a }, Field::Name { name: b }) => *a == *b,
            (Field::ID { id: a }, Field::ID { id: b }) => *a == *b,
            (Field::Specifier { specifier: a }, Field::Specifier { specifier: b }) => *a == *b,
            (Field::Glob, Field::Glob) => true,
            (Field::DoubleGlob, Field::DoubleGlob) => true,
            (Field::TripleGlob, Field::TripleGlob) => true,
            _ => false,
        }
    }
}

impl vstd::std_specs::cmp::PartialEqSpecImpl for Field {
    open spec fn obeys_eq_spec() -> bool {
        true
    }

    open spec fn eq_spec(&self, other: &Field) -> bool {
        self@ == other@
    }
}

impl Eq for Field {

}

/// Relies on std's `String::from_iter`: the string of the given characters, in order.
#[verifier::external_body]
pub(crate) fn string_of(chars: Vec<char>) -> (r: String)
    ensures
        r@ == chars@,
{
    String::from_iter(chars)
}

/// How a list action is written.
pub open spec fn list_specifier_text(l: ListSpecifier) -> Seq<char> {
    match l {
        ListSpecifier::Add => seq!['a', 'd', 'd'],
        ListSpecifier::Remove => seq!['r', 'e', 'm', 'o', 'v', 'e'],
        ListSpecifier::ReadOne => seq!['r', 'e', 'a', 'd', '_', 'o', 'n', 'e'],
        ListSpecifier::ListAll => seq!['l', 'i', 's', 't', '_', 'a', 'l', 'l'],
    }
}

/// How an action is written.
pub open spec fn specifier_text(s: Specifier) -> Seq<char> {
    match s {
        Specifier::ListSpecifier { specifier } => list_specifier_text(specifier),
        Specifier::Read => seq!['r', 'e', 'a', 'd'],
        Specifier::Write => seq!['w', 'r', 'i', 't', 'e'],
        Specifier::Assign => seq!['a', 's', 's', 'i', 'g', 'n'],
        Specifier::Enact => seq!['e', 'n', 'a', 'c', 't'],
    }
}

pub open spec fn digit_char(d: nat) -> char {
    seq!['0', '1', '2', '3', '4', '5', '6', '7', '8', '9'][d as int]
}

/// The decimal digits of `n`, without leading zeros.
pub open spec fn digits_of(n: nat) -> Seq<char>
    decreases n,
{
    if n < 10 {
        seq![digit_char(n)]
    } else {
        digits_of(n / 10).push(digit_char(n % 10))
    }
}

/// How an integer is written in decimal.
pub open spec fn decimal_text(v: i64) -> Seq<char> {
    if v < 0 {
        seq!['-'] + digits_of((-v) as nat)
    } else {
        digits_of(v as nat)
    }
}

/// How a segment is written in a path.
pub open spec fn field_text(f: FieldView) -> Seq<char> {
    match f {
        FieldView::Name(name) => name,
        FieldView::ID(id) => decimal_text(id),
        FieldView::Specifier(s) => specifier_text(s),
        FieldView::Glob => seq!['*'],
        FieldView::DoubleGlob => seq!['*', '*'],
        FieldView::TripleGlob => seq!['*', '*', '*'],
    }
}

fn push_digits(n: u64, out: &mut Vec<char>)
    ensures
        final(out)@ == old(out)@ + digits_of(n as nat),
    decreases n,
{
    let digits = ['0', '1', '2', '3', '4', '5', '6', '7', '8', '9'];
    assert(digits@ =~= seq!['0', '1', '2', '3', '4', '5', '6', '7', '8', '9']);
    if n >= 10 {
        push_digits(n / 10, out);
    }
    out.push(digits[(n % 10) as usize]);
    assert(final(out)@ =~= old(out)@ + digits_of(n as nat));
}

impl ListSpecifier {
    /// The word that writes this action.
    pub fn to_string(&self) -> (r: String)
        ensures
            r@ == list_specifier_text(*self),
    {
        let chars: Vec<char> = match self {
            ListSpecifier::Add => vec!['a', 'd', 'd'],
            ListSpecifier::ListAll => vec!['l', 'i', 's', 't', '_', 'a', 'l', 'l'],
            ListSpecifier::ReadOne => vec!['r', 'e', 'a', 'd', '_', 'o', 'n', 'e'],
            ListSpecifier::Remove => vec!['r', 'e', 'm', 'o', 'v', 'e'],
        };
        assert(chars@ =~= list_specifier_text(*self));
        string_of(chars)
    }
}

impl Specifier {
    /// The word that writes this action.
    pub fn to_string(&self) -> (r: String)
        ensures
            r@ == specifier_text(*self),
    {
        let chars: Vec<char> = match self {
            Specifier::ListSpecifier { specifier } => {
                return specifier.to_string();
            },
            Specifier::Assign => vec!['a', 's', 's', 'i', 'g', 'n'],
            Specifier::Read => vec!['r', 'e', 'a', 'd'],
            Specifier::Write => vec!['w', 'r', 'i', 't', 'e'],
            Specifier::Enact => vec!['e', 'n', 'a', 'c', 't'],
        };
        assert(chars@ =~= specifier_text(*self));
        string_of(chars)
    }
}

impl From<ListSpecifier> for Specifier {
    fn from(value: ListSpecifier) -> (r: Self) {
        Self::ListSpecifier { specifier: value }
    }
}

impl vstd::std_specs::convert::FromSpecImpl<ListSpecifier> for Specifier {
    open spec fn obeys_from_spec() -> bool {
        true
    }

    open spec fn from_spec(v: ListSpecifier) -> Self {
        Specifier::ListSpecifier { specifier: v }
    }
}

impl From<ListSpecifier> for Field {
    fn from(value: ListSpecifier) -> (r: Self) {
        Self::Specifier { specifier: Specifier::ListSpecifier { specifier: value } }
    }
}

impl vstd::std_specs::convert::FromSpecImpl<ListSpecifier> for Field {
    open spec fn obeys_from_spec() -> bool {
        true
    }

    open spec fn from_spec(v: ListSpecifier) -> Self {
        Field::Specifier { specifier: Specifier::ListSpecifier { specifier: v } }
    }
}

impl From<Specifier> for Field {
    fn from(value: Specifier) -> (r: Self) {
        Self::Specifier { specifier: value }
    }
}

impl vstd::std_specs::convert::FromSpecImpl<Specifier> for Field {
    open spec fn obeys_from_spec() -> bool {
        true
    }

    open spec fn from_spec(v: Specifier) -> Self {
        Field::Specifier { specifier: v }
    }
}

impl Field {
    /// How this segment is written in a path.
    pub fn to_string(&self) -> (r: String)
        ensures
            r@ == field_text(self@),
    {
        match self {
            Field::Name { name } => name.clone(),
            Field::ID { id } => {
                let magnitude: u64 = if *id < 0 {
                    (-(*id as i128)) as u64
                } else {
                    *id as u64
                };
                let mut chars: Vec<char> = Vec::new();
                if *id < 0 {
                    chars.push('-');
                }
                push_digits(magnitude, &mut chars);
                assert(chars@ =~= decimal_text(*id));
                string_of(chars)
            },
            Field::Specifier { specifier } => specifier.to_string(),
            Field::Glob => string_of(vec!['*']),
            Field::DoubleGlob => string_of(vec!['*', '*']),
            Field::TripleGlob => string_of(vec!['*', '*', '*']),
        }
    }
}

} // verus!
