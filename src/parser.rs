//! Permission paths and permission sets, and the parser for path text.

use vstd::prelude::*;

use crate::tokenizer::{specifier_text, string_of, Field, FieldView, ListSpecifier, Specifier};

verus! {

/// The characters `[start, end)` of a parsed text, counted in `char`s.
#[derive(Clone, Copy, PartialEq, Eq, Structural, Debug)]
pub struct Span {
    pub start: usize,
    pub end: usize,
}

/// Why a path or a policy could not be parsed.
#[derive(Clone, Copy, PartialEq, Eq, Structural, Debug)]
pub enum PermissionParseError {
    /// No token of the grammar can start at this character offset (the text's
    /// length where the text ends too soon).
    InvalidToken { at: usize },
    /// A path holds a second triple glob.
    RepeatedTripleGlob { first: Span, second: Span },
    /// A path goes on after the specifier that ends it.
    AfterSpecifier { specifier: Specifier, terminator: Span, next: Span },
}

impl PermissionParseError {
    /// A sentence that says what went wrong.
    pub fn message(&self) -> (r: String)
        ensures
            r@ == (match *self {
                PermissionParseError::InvalidToken { .. } => "invalid token"@,
                PermissionParseError::RepeatedTripleGlob { .. } =>
                    "cannot use triple glob more than once in a permission"@,
                PermissionParseError::AfterSpecifier { specifier, .. } => match specifier {
                    Specifier::ListSpecifier { .. } =>
                        "cannot further define the permission after using list specifier (`"@
                            + specifier_text(specifier) + "`)"@,
                    _ => "cannot further define the permission after using specifier (`"@
                        + specifier_text(specifier) + "`)"@,
                },
            }),
    {
        match self {
            PermissionParseError::InvalidToken { .. } => String::from_str("invalid token"),
            PermissionParseError::RepeatedTripleGlob { .. } => String::from_str(
                "cannot use triple glob more than once in a permission",
            ),
            PermissionParseError::AfterSpecifier { specifier, .. } => {
                let lead = match specifier {
                    Specifier::ListSpecifier { .. } => String::from_str(
                        "cannot further define the permission after using list specifier (`",
                    ),
                    _ => String::from_str(
                        "cannot further define the permission after using specifier (`",
                    ),
                };
                let name = specifier.to_string();
                lead.concat(name.as_str()).concat("`)")
            },
        }
    }
}

/// A parsed permission path: its segments, outermost first.
#[derive(Debug)]
pub struct PermissionItem {
    pub perm: Vec<Field>,
}

impl View for PermissionItem {
    type V = Seq<FieldView>;

    open spec fn view(&self) -> Seq<FieldView> {
        self.perm@.map_values(|f: Field| f@)
    }
}

impl Clone for PermissionItem {
    fn clone(&self) -> (r: Self)
        ensures
            r@ == self@,
    {
        let mut perm: Vec<Field> = Vec::new();
        for k in 0..self.perm.len()
            invariant
                perm@.len() == k,
                forall|m: int| 0 <= m < k ==> #[trigger] perm@[m]@ == self.perm@[m]@,
        {
            perm.push(self.perm[k].clone());
        }
        let r = PermissionItem { perm };
        assert(r@ =~= self@);
        r
    }
}

/// The permission paths granted to one principal.
#[derive(Debug)]
pub struct PermissionGroup {
    pub perms: Vec<PermissionItem>,
}

impl View for PermissionGroup {
    type V = Seq<Seq<FieldView>>;

    open spec fn view(&self) -> Seq<Seq<FieldView>> {
        self.perms@.map_values(|p: PermissionItem| p@)
    }
}

impl Clone for PermissionGroup {
    fn clone(&self) -> (r: Self)
        ensures
            r@ == self@,
    {
        let mut perms: Vec<PermissionItem> = Vec::new();
        for k in 0..self.perms.len()
            invariant
                perms@.len() == k,
                forall|m: int| 0 <= m < k ==> #[trigger] perms@[m]@ == self.perms@[m]@,
        {
            perms.push(self.perms[k].clone());
        }
        let r = PermissionGroup { perms };
        assert(r@ =~= self@);
        r
    }
}

impl From<Vec<Field>> for PermissionItem {
    fn from(value: Vec<Field>) -> (r: Self) {
        Self { perm: value }
    }
}

impl vstd::std_specs::convert::FromSpecImpl<Vec<Field>> for PermissionItem {
    open spec fn obeys_from_spec() -> bool {
        true
    }

    open spec fn from_spec(v: Vec<Field>) -> Self {
        PermissionItem { perm: v }
    }
}

impl From<Vec<PermissionItem>> for PermissionGroup {
    fn from(value: Vec<PermissionItem>) -> (r: Self) {
        Self { perms: value }
    }
}

impl vstd::std_specs::convert::FromSpecImpl<Vec<PermissionItem>> for PermissionGroup {
    open spec fn obeys_from_spec() -> bool {
        true
    }

    open spec fn from_spec(v: Vec<PermissionItem>) -> Self {
        PermissionGroup { perms: v }
    }
}

impl From<PermissionItem> for PermissionGroup {
    /// The set that holds `value` alone.
    fn from(value: PermissionItem) -> (r: Self)
        ensures
            r@ == seq![value@],
    {
        let r = Self { perms: vec![value] };
        assert(r@ =~= seq![value@]);
        r
    }
}

/// A `Vec` cannot be written in a specification, so the result is stated by
/// the `ensures` of `from` itself.
impl vstd::std_specs::convert::FromSpecImpl<PermissionItem> for PermissionGroup {
    open spec fn obeys_from_spec() -> bool {
        false
    }

    open spec fn from_spec(v: PermissionItem) -> Self {
        arbitrary()
    }
}

impl<'a> From<&'a PermissionItem> for PermissionGroup {
    /// The set that holds a copy of `value` alone.
    fn from(value: &'a PermissionItem) -> (r: Self)
        ensures
            r@ == seq![value@],
    {
        let r = Self { perms: vec![value.clone()] };
        assert(r@ =~= seq![value@]);
        r
    }
}

/// A `Vec` cannot be written in a specification, so the result is stated by
/// the `ensures` of `from` itself.
impl<'a> vstd::std_specs::convert::FromSpecImpl<&'a PermissionItem> for PermissionGroup {
    open spec fn obeys_from_spec() -> bool {
        false
    }

    open spec fn from_spec(v: &'a PermissionItem) -> Self {
        arbitrary()
    }
}

impl<'a> From<&'a PermissionGroup> for PermissionGroup {
    /// A copy of `value`.
    fn from(value: &'a PermissionGroup) -> (r: Self)
        ensures
            r@ == value@,
    {
        value.clone()
    }
}

/// A copy holds its own `Vec`, which a specification cannot write, so the
/// result is stated by the `ensures` of `from` itself.
impl<'a> vstd::std_specs::convert::FromSpecImpl<&'a PermissionGroup> for PermissionGroup {
    open spec fn obeys_from_spec() -> bool {
        false
    }

    open spec fn from_spec(v: &'a PermissionGroup) -> Self {
        arbitrary()
    }
}

impl PermissionGroup {
    /// Adds a grant to the set.
    pub fn add(&mut self, item: PermissionItem)
        ensures
            final(self)@ == old(self)@.push(item@),
    {
        self.perms.push(item);
        assert(self@ =~= old(self)@.push(item@));
    }
}

// ---------------------------------------------------------------------------
// The grammar of path text, over its characters.
// ---------------------------------------------------------------------------

/// Whitespace as Rust reads it between tokens (`Pattern_White_Space`).
pub open spec fn is_space(c: char) -> bool {
    c == ' ' || c == '\t' || c == '\n' || c == '\r' || c == '\u{0B}' || c == '\u{0C}' || c
        == '\u{85}' || c == '\u{200E}' || c == '\u{200F}' || c == '\u{2028}' || c == '\u{2029}'
}

pub open spec fn is_digit(c: char) -> bool {
    '0' <= c && c <= '9'
}

/// Whether a character has the Unicode property `XID_Start`.
pub uninterp spec fn xid_start(c: char) -> bool;

/// Whether a character has the Unicode property `XID_Continue`.
pub uninterp spec fn xid_continue(c: char) -> bool;

pub open spec fn is_ascii_word_char(c: char) -> bool {
    ('a' <= c && c <= 'z') || ('A' <= c && c <= 'Z') || c == '_' || is_digit(c)
}

/// The characters that start a word: ASCII letters, digits and `_`, and
/// beyond ASCII those that may start a Rust identifier.
pub open spec fn is_word_start(c: char) -> bool {
    is_ascii_word_char(c) || ((c as u32) >= 128 && xid_start(c))
}

/// The characters that go on a word: ASCII letters, digits and `_`, and
/// beyond ASCII those that may go on a Rust identifier.
pub open spec fn is_word_char(c: char) -> bool {
    is_ascii_word_char(c) || ((c as u32) >= 128 && xid_continue(c))
}

/// The first position at or after `pos` that holds no whitespace.
pub open spec fn skip_space(s: Seq<char>, pos: int) -> int
    decreases s.len() - pos,
{
    if 0 <= pos < s.len() && is_space(s[pos]) {
        skip_space(s, pos + 1)
    } else {
        pos
    }
}

/// The end of the run of word characters that starts at `pos`.
pub open spec fn word_end(s: Seq<char>, pos: int) -> int
    decreases s.len() - pos,
{
    if 0 <= pos < s.len() && is_word_char(s[pos]) {
        word_end(s, pos + 1)
    } else {
        pos
    }
}

/// The reserved action words.
pub open spec fn keyword(w: Seq<char>) -> Option<Specifier> {
    if w == seq!['a', 'd', 'd'] {
        Some(Specifier::ListSpecifier { specifier: ListSpecifier::Add })
    } else if w == seq!['r', 'e', 'm', 'o', 'v', 'e'] {
        Some(Specifier::ListSpecifier { specifier: ListSpecifier::Remove })
    } else if w == seq!['r', 'e', 'a', 'd', '_', 'o', 'n', 'e'] {
        Some(Specifier::ListSpecifier { specifier: ListSpecifier::ReadOne })
    } else if w == seq!['l', 'i', 's', 't', '_', 'a', 'l', 'l'] {
        Some(Specifier::ListSpecifier { specifier: ListSpecifier::ListAll })
    } else if w == seq!['r', 'e', 'a', 'd'] {
        Some(Specifier::Read)
    } else if w == seq!['w', 'r', 'i', 't', 'e'] {
        Some(Specifier::Write)
    } else if w == seq!['a', 's', 's', 'i', 'g', 'n'] {
        Some(Specifier::Assign)
    } else if w == seq!['e', 'n', 'a', 'c', 't'] {
        Some(Specifier::Enact)
    } else {
        None
    }
}

pub open spec fn digit_value(c: char) -> int {
    (c as u32) as int - ('0' as u32) as int
}

/// The number that a sequence of decimal digits writes.
pub open spec fn numeral_value(w: Seq<char>) -> int
    decreases w.len(),
{
    if w.len() == 0 {
        0
    } else {
        numeral_value(w.drop_last()) * 10 + digit_value(w.last())
    }
}

/// `0`, or a nonzero digit followed by digits.
pub open spec fn is_canonical_numeral(w: Seq<char>) -> bool {
    &&& w.len() > 0
    &&& forall|k: int| 0 <= k < w.len() ==> is_digit(#[trigger] w[k])
    &&& w[0] == '0' ==> w.len() == 1
}

/// What a word means as a segment: an action word, else a canonical numeral
/// that fits in an `i64`, else a name.
pub open spec fn word_field(w: Seq<char>) -> FieldView {
    match keyword(w) {
        Some(k) => FieldView::Specifier(k),
        None => if is_canonical_numeral(w) && numeral_value(w) <= i64::MAX {
            FieldView::ID(numeral_value(w) as i64)
        } else {
            FieldView::Name(w)
        },
    }
}

/// The character that an escape `\c` stands for.
pub open spec fn escaped(c: char) -> Option<char> {
    if c == 'n' {
        Some('\n')
    } else if c == 'r' {
        Some('\r')
    } else if c == 't' {
        Some('\t')
    } else if c == '0' {
        Some('\0')
    } else if c == '\\' || c == '\'' || c == '"' {
        Some(c)
    } else {
        None
    }
}

pub open spec fn is_hex(c: char) -> bool {
    is_digit(c) || ('a' <= c && c <= 'f') || ('A' <= c && c <= 'F')
}

pub open spec fn hex_digit_value(c: char) -> int {
    if is_digit(c) {
        digit_value(c)
    } else if 'a' <= c && c <= 'f' {
        (c as u32) as int - ('a' as u32) as int + 10
    } else {
        (c as u32) as int - ('A' as u32) as int + 10
    }
}

/// The number that a sequence of hexadecimal digits writes.
pub open spec fn hex_value(w: Seq<char>) -> int
    decreases w.len(),
{
    if w.len() == 0 {
        0
    } else {
        hex_value(w.drop_last()) * 16 + hex_digit_value(w.last())
    }
}

/// The end of the run of hexadecimal digits that starts at `pos`.
pub open spec fn hex_end(s: Seq<char>, pos: int) -> int
    decreases s.len() - pos,
{
    if 0 <= pos < s.len() && is_hex(s[pos]) {
        hex_end(s, pos + 1)
    } else {
        pos
    }
}

/// Whether `v` is a Unicode scalar value, the value of some `char`.
pub open spec fn is_scalar(v: int) -> bool {
    0 <= v <= 0x10FFFF && !(0xD800 <= v <= 0xDFFF)
}

/// The Unicode scalar value of `c`.
pub open spec fn scalar_value(c: char) -> int {
    (c as u32) as int
}

/// The character whose scalar value is `v`.
pub open spec fn char_of(v: int) -> char {
    (v as u32) as char
}

/// The escape that starts with the backslash at `pos`: the characters it
/// stands for (none for a line continuation, which also skips the
/// whitespace after the line break) and the position after it.
pub open spec fn escape_at(s: Seq<char>, pos: int) -> Option<(Seq<char>, int)> {
    if !(0 <= pos && pos + 1 < s.len()) {
        None
    } else {
        let c = s[pos + 1];
        if escaped(c) is Some {
            Some((seq![escaped(c)->0], pos + 2))
        } else if c == 'x' {
            let v = hex_value(s.subrange(pos + 2, pos + 4));
            if pos + 3 < s.len() && is_hex(s[pos + 2]) && is_hex(s[pos + 3]) && v <= 0x7F {
                Some((seq![char_of(v)], pos + 4))
            } else {
                None
            }
        } else if c == 'u' {
            let close = hex_end(s, pos + 3);
            let v = hex_value(s.subrange(pos + 3, close));
            if pos + 2 < s.len() && s[pos + 2] == '{' && pos + 3 < close <= pos + 9 && close
                < s.len() && s[close] == '}' && is_scalar(v) {
                Some((seq![char_of(v)], close + 1))
            } else {
                None
            }
        } else if c == '\n' {
            Some((seq![], skip_space(s, pos + 2)))
        } else {
            None
        }
    }
}

proof fn lemma_hex_end_forward(s: Seq<char>, pos: int)
    ensures
        hex_end(s, pos) >= pos,
    decreases s.len() - pos,
{
    if 0 <= pos < s.len() && is_hex(s[pos]) {
        lemma_hex_end_forward(s, pos + 1);
    }
}

proof fn lemma_escape_forward(s: Seq<char>, pos: int)
    ensures
        escape_at(s, pos) matches Some((_, end)) ==> pos + 2 <= end <= s.len(),
{
    lemma_skip_space_forward(s, pos + 2);
    lemma_skip_space_bounded(s, pos + 2);
}

/// The rest of a quoted string from `pos`, after `acc` was read: its content
/// and the position after the closing quote, or where it went wrong.
pub open spec fn scan_quoted(s: Seq<char>, pos: int, acc: Seq<char>) -> Result<(Seq<char>, int), int>
    decreases s.len() - pos,
    via scan_quoted_decreases
{
    if !(0 <= pos < s.len()) {
        Err(s.len() as int)
    } else if s[pos] == '"' {
        Ok((acc, pos + 1))
    } else if s[pos] == '\\' {
        match escape_at(s, pos) {
            Some((out, end)) => scan_quoted(s, end, acc + out),
            None => Err(pos),
        }
    } else {
        scan_quoted(s, pos + 1, acc.push(s[pos]))
    }
}

#[via_fn]
proof fn scan_quoted_decreases(s: Seq<char>, pos: int, acc: Seq<char>) {
    lemma_escape_forward(s, pos);
}

/// Whether the `"` at `k` followed by `hashes` times `#` closes a raw string.
pub open spec fn raw_close_at(s: Seq<char>, k: int, hashes: int) -> bool {
    &&& 0 <= k
    &&& k + hashes < s.len()
    &&& s[k] == '"'
    &&& forall|i: int| 1 <= i <= hashes ==> #[trigger] s[k + i] == '#'
}

/// The rest of a raw string from `k`, after `acc` was read: its content and
/// the position after it, or where it went wrong.
pub open spec fn scan_raw(s: Seq<char>, k: int, hashes: int, acc: Seq<char>) -> Result<
    (Seq<char>, int),
    int,
>
    decreases s.len() - k,
{
    if !(0 <= k < s.len()) {
        Err(s.len() as int)
    } else if raw_close_at(s, k, hashes) {
        Ok((acc, k + 1 + hashes))
    } else {
        scan_raw(s, k + 1, hashes, acc.push(s[k]))
    }
}

/// The end of the run of `#` that starts at `pos`.
pub open spec fn hash_end(s: Seq<char>, pos: int) -> int
    decreases s.len() - pos,
{
    if 0 <= pos < s.len() && s[pos] == '#' {
        hash_end(s, pos + 1)
    } else {
        pos
    }
}

/// A raw string `r"…"` or `r#"…"#` (with as many `#` on both sides) at `pos`.
pub open spec fn scan_raw_string(s: Seq<char>, pos: int) -> Result<(Seq<char>, int), int> {
    let open = hash_end(s, pos + 1);
    if 0 <= open < s.len() && s[open] == '"' {
        scan_raw(s, open + 1, open - (pos + 1), seq![])
    } else {
        Err(pos)
    }
}

/// Whether a raw string starts at `pos`: `r` followed by `"` or `#`.
pub open spec fn raw_string_at(s: Seq<char>, pos: int) -> bool {
    0 <= pos && pos + 1 < s.len() && s[pos] == 'r' && (s[pos + 1] == '"' || s[pos + 1] == '#')
}

/// A character literal at `pos`: its character and the position after it.
pub open spec fn scan_char_literal(s: Seq<char>, pos: int) -> Result<(char, int), int> {
    if pos + 1 < s.len() && s[pos + 1] == '\\' {
        match escape_at(s, pos + 1) {
            Some((out, end)) => if out.len() == 1 && 0 <= end < s.len() && s[end] == '\'' {
                Ok((out[0], end + 1))
            } else {
                Err(pos)
            },
            None => Err(pos),
        }
    } else if pos + 2 < s.len() && s[pos + 1] != '\'' && s[pos + 2] == '\'' {
        Ok((s[pos + 1], pos + 3))
    } else {
        Err(pos)
    }
}

/// The segment that starts at `pos` and the position after it, or the
/// position where no segment can be read.
pub open spec fn scan_segment(s: Seq<char>, pos: int) -> Result<(FieldView, int), int> {
    if !(0 <= pos < s.len()) {
        Err(pos)
    } else if s[pos] == '*' {
        if pos + 2 < s.len() && s[pos + 1] == '*' && s[pos + 2] == '*' {
            Ok((FieldView::TripleGlob, pos + 3))
        } else if pos + 1 < s.len() && s[pos + 1] == '*' {
            Ok((FieldView::DoubleGlob, pos + 2))
        } else {
            Ok((FieldView::Glob, pos + 1))
        }
    } else if raw_string_at(s, pos) {
        match scan_raw_string(s, pos) {
            Ok((w, end)) => Ok((FieldView::Name(w), end)),
            Err(at) => Err(at),
        }
    } else if is_word_start(s[pos]) {
        let end = word_end(s, pos + 1);
        Ok((word_field(s.subrange(pos, end)), end))
    } else if s[pos] == '"' {
        match scan_quoted(s, pos + 1, seq![]) {
            Ok((w, end)) => Ok((FieldView::Name(w), end)),
            Err(at) => Err(at),
        }
    } else if s[pos] == '\'' {
        match scan_char_literal(s, pos) {
            Ok((c, end)) => Ok((FieldView::Name(seq![c]), end)),
            Err(at) => Err(at),
        }
    } else {
        Err(pos)
    }
}

// ---------------------------------------------------------------------------
// Reading segments.
// ---------------------------------------------------------------------------

/// The characters of `s`, in order.
pub(crate) fn chars_of(s: &str) -> (r: Vec<char>)
    ensures
        r@ == s@,
{
    let mut out: Vec<char> = Vec::new();
    for c in it: s.chars()
        invariant
            out@ == it.seq().take(it.index() as int),
    {
        out.push(c);
    }
    out
}

fn is_space_char(c: char) -> (r: bool)
    ensures
        r == is_space(c),
{
    c == ' ' || c == '\t' || c == '\n' || c == '\r' || c == '\u{0B}' || c == '\u{0C}' || c
        == '\u{85}' || c == '\u{200E}' || c == '\u{200F}' || c == '\u{2028}' || c == '\u{2029}'
}

fn is_digit_char(c: char) -> (r: bool)
    ensures
        r == is_digit(c),
{
    '0' <= c && c <= '9'
}

/// Relies on `unicode_ident::is_xid_start`: whether the character has the
/// Unicode property `XID_Start`.
#[verifier::external_body]
fn xid_start_char(c: char) -> (r: bool)
    ensures
        r == xid_start(c),
{
    unicode_ident::is_xid_start(c)
}

/// Relies on `unicode_ident::is_xid_continue`: whether the character has the
/// Unicode property `XID_Continue`.
#[verifier::external_body]
fn xid_continue_char(c: char) -> (r: bool)
    ensures
        r == xid_continue(c),
{
    unicode_ident::is_xid_continue(c)
}

fn is_ascii_word_character(c: char) -> (r: bool)
    ensures
        r == is_ascii_word_char(c),
{
    ('a' <= c && c <= 'z') || ('A' <= c && c <= 'Z') || c == '_' || is_digit_char(c)
}

pub(crate) fn is_word_start_character(c: char) -> (r: bool)
    ensures
        r == is_word_start(c),
{
    is_ascii_word_character(c) || ((c as u32) >= 128 && xid_start_char(c))
}

pub(crate) fn is_word_character(c: char) -> (r: bool)
    ensures
        r == is_word_char(c),
{
    is_ascii_word_character(c) || ((c as u32) >= 128 && xid_continue_char(c))
}

pub(crate) fn skip_spaces(text: &Vec<char>, pos: usize) -> (r: usize)
    requires
        pos <= text.len(),
    ensures
        r == skip_space(text@, pos as int),
        pos <= r <= text.len(),
{
    let mut k = pos;
    while k < text.len() && is_space_char(text[k])
        invariant
            pos <= k <= text.len(),
            skip_space(text@, pos as int) == skip_space(text@, k as int),
        decreases text.len() - k,
    {
        k += 1;
    }
    k
}

fn find_word_end(text: &Vec<char>, pos: usize) -> (r: usize)
    requires
        pos <= text.len(),
    ensures
        r == word_end(text@, pos as int),
        pos <= r <= text.len(),
{
    let mut k = pos;
    while k < text.len() && is_word_character(text[k])
        invariant
            pos <= k <= text.len(),
            word_end(text@, pos as int) == word_end(text@, k as int),
        decreases text.len() - k,
    {
        k += 1;
    }
    k
}

fn chars_between(text: &Vec<char>, start: usize, end: usize) -> (r: Vec<char>)
    requires
        start <= end <= text.len(),
    ensures
        r@ == text@.subrange(start as int, end as int),
{
    let mut out: Vec<char> = Vec::new();
    for k in start..end
        invariant
            out@ == text@.subrange(start as int, k as int),
            end <= text.len(),
    {
        out.push(text[k]);
        assert(out@ =~= text@.subrange(start as int, k + 1));
    }
    out
}

fn word_is(w: &Vec<char>, kw: &[char]) -> (r: bool)
    ensures
        r == (w@ == kw@),
{
    if w.len() != kw.len() {
        return false;
    }
    for k in 0..w.len()
        invariant
            w.len() == kw@.len(),
            forall|m: int| 0 <= m < k ==> w@[m] == kw@[m],
    {
        if w[k] != kw[k] {
            return false;
        }
    }
    assert(w@ =~= kw@);
    true
}

fn keyword_of(w: &Vec<char>) -> (r: Option<Specifier>)
    ensures
        r == keyword(w@),
{
    let add = ['a', 'd', 'd'];
    let remove = ['r', 'e', 'm', 'o', 'v', 'e'];
    let read_one = ['r', 'e', 'a', 'd', '_', 'o', 'n', 'e'];
    let list_all = ['l', 'i', 's', 't', '_', 'a', 'l', 'l'];
    let read = ['r', 'e', 'a', 'd'];
    let write = ['w', 'r', 'i', 't', 'e'];
    let assign = ['a', 's', 's', 'i', 'g', 'n'];
    let enact = ['e', 'n', 'a', 'c', 't'];
    assert(add@ =~= seq!['a', 'd', 'd']);
    assert(remove@ =~= seq!['r', 'e', 'm', 'o', 'v', 'e']);
    assert(read_one@ =~= seq!['r', 'e', 'a', 'd', '_', 'o', 'n', 'e']);
    assert(list_all@ =~= seq!['l', 'i', 's', 't', '_', 'a', 'l', 'l']);
    assert(read@ =~= seq!['r', 'e', 'a', 'd']);
    assert(write@ =~= seq!['w', 'r', 'i', 't', 'e']);
    assert(assign@ =~= seq!['a', 's', 's', 'i', 'g', 'n']);
    assert(enact@ =~= seq!['e', 'n', 'a', 'c', 't']);
    if word_is(w, &add) {
        Some(Specifier::ListSpecifier { specifier: ListSpecifier::Add })
    } else if word_is(w, &remove) {
        Some(Specifier::ListSpecifier { specifier: ListSpecifier::Remove })
    } else if word_is(w, &read_one) {
        Some(Specifier::ListSpecifier { specifier: ListSpecifier::ReadOne })
    } else if word_is(w, &list_all) {
        Some(Specifier::ListSpecifier { specifier: ListSpecifier::ListAll })
    } else if word_is(w, &read) {
        Some(Specifier::Read)
    } else if word_is(w, &write) {
        Some(Specifier::Write)
    } else if word_is(w, &assign) {
        Some(Specifier::Assign)
    } else if word_is(w, &enact) {
        Some(Specifier::Enact)
    } else {
        None
    }
}

proof fn lemma_numeral_prefix(w: Seq<char>, k: int)
    requires
        0 <= k <= w.len(),
        forall|m: int| 0 <= m < w.len() ==> is_digit(#[trigger] w[m]),
    ensures
        0 <= numeral_value(w.take(k)) <= numeral_value(w),
    decreases w.len(),
{
    if k < w.len() {
        let shorter = w.drop_last();
        assert(shorter.take(k) =~= w.take(k));
        lemma_numeral_prefix(shorter, k);
        lemma_numeral_prefix(shorter, shorter.len() as int);
        assert(shorter.take(shorter.len() as int) =~= shorter);
    } else {
        assert(w.take(k) =~= w);
        if w.len() > 0 {
            let shorter = w.drop_last();
            lemma_numeral_prefix(shorter, shorter.len() as int);
            assert(shorter.take(shorter.len() as int) =~= shorter);
        }
    }
}

/// The value of `w` where it is a canonical numeral that fits in an `i64`.
fn numeral_id(w: &Vec<char>) -> (r: Option<i64>)
    ensures
        r == (if is_canonical_numeral(w@) && numeral_value(w@) <= i64::MAX {
            Some(numeral_value(w@) as i64)
        } else {
            None
        }),
{
    if w.len() == 0 || (w[0] == '0' && w.len() > 1) {
        return None;
    }
    let mut acc: i64 = 0;
    for k in 0..w.len()
        invariant
            w@.len() > 0,
            w@[0] == '0' ==> w@.len() == 1,
            forall|m: int| 0 <= m < k ==> is_digit(#[trigger] w@[m]),
            acc as int == numeral_value(w@.take(k as int)),
            acc >= 0,
    {
        let c = w[k];
        if !is_digit_char(c) {
            return None;
        }
        assert(w@.take(k + 1).drop_last() =~= w@.take(k as int));
        let d = (c as u32 - '0' as u32) as i64;
        let next = match acc.checked_mul(10) {
            Some(t) => t.checked_add(d),
            None => None,
        };
        match next {
            Some(v) => {
                acc = v;
            },
            None => {
                proof {
                    if forall|m: int| 0 <= m < w@.len() ==> is_digit(#[trigger] w@[m]) {
                        lemma_numeral_prefix(w@, k + 1);
                    }
                }
                return None;
            },
        }
    }
    assert(w@.take(w@.len() as int) =~= w@);
    Some(acc)
}

fn word_field_exec(w: Vec<char>) -> (r: Field)
    ensures
        r@ == word_field(w@),
{
    match keyword_of(&w) {
        Some(k) => Field::Specifier { specifier: k },
        None => match numeral_id(&w) {
            Some(id) => Field::ID { id },
            None => Field::Name { name: string_of(w) },
        },
    }
}

fn escaped_char(c: char) -> (r: Option<char>)
    ensures
        r == escaped(c),
{
    if c == 'n' {
        Some('\n')
    } else if c == 'r' {
        Some('\r')
    } else if c == 't' {
        Some('\t')
    } else if c == '0' {
        Some('\0')
    } else if c == '\\' || c == '\'' || c == '"' {
        Some(c)
    } else {
        None
    }
}

fn is_hex_char(c: char) -> (r: bool)
    ensures
        r == is_hex(c),
{
    is_digit_char(c) || ('a' <= c && c <= 'f') || ('A' <= c && c <= 'F')
}

fn hex_digit(c: char) -> (r: u32)
    requires
        is_hex(c),
    ensures
        r as int == hex_digit_value(c),
        r < 16,
{
    if '0' <= c && c <= '9' {
        c as u32 - '0' as u32
    } else if 'a' <= c && c <= 'f' {
        c as u32 - 'a' as u32 + 10
    } else {
        c as u32 - 'A' as u32 + 10
    }
}

pub open spec fn pow16(m: nat) -> int
    decreases m,
{
    if m == 0 {
        1
    } else {
        16 * pow16((m - 1) as nat)
    }
}

proof fn lemma_pow16_small(m: nat)
    requires
        m <= 6,
    ensures
        1 <= pow16(m) <= 0x1000000,
{
    reveal_with_fuel(pow16, 7);
}

/// The value of the hexadecimal digits `[a, b)`, at most six of them.
fn hex_number(text: &Vec<char>, a: usize, b: usize) -> (r: u32)
    requires
        a <= b <= text.len(),
        b - a <= 6,
        forall|k: int| a <= k < b ==> is_hex(#[trigger] text@[k]),
    ensures
        r as int == hex_value(text@.subrange(a as int, b as int)),
{
    let mut acc: u64 = 0;
    let mut k = a;
    assert(text@.subrange(a as int, a as int) =~= Seq::<char>::empty());
    while k < b
        invariant
            a <= k <= b <= text.len(),
            b - a <= 6,
            forall|m: int| a <= m < b ==> is_hex(#[trigger] text@[m]),
            acc as int == hex_value(text@.subrange(a as int, k as int)),
            acc < pow16((k - a) as nat),
        decreases b - k,
    {
        proof {
            lemma_pow16_small((k + 1 - a) as nat);
            assert(text@.subrange(a as int, k + 1).drop_last() =~= text@.subrange(a as int, k as int));
        }
        acc = acc * 16 + hex_digit(text[k]) as u64;
        k += 1;
    }
    proof {
        lemma_pow16_small((b - a) as nat);
    }
    acc as u32
}

fn find_hex_end(text: &Vec<char>, pos: usize) -> (r: usize)
    requires
        pos <= text.len(),
    ensures
        r == hex_end(text@, pos as int),
        pos <= r <= text.len(),
        forall|k: int| pos <= k < r ==> is_hex(#[trigger] text@[k]),
{
    let mut k = pos;
    while k < text.len() && is_hex_char(text[k])
        invariant
            pos <= k <= text.len(),
            hex_end(text@, pos as int) == hex_end(text@, k as int),
            forall|m: int| pos <= m < k ==> is_hex(#[trigger] text@[m]),
        decreases text.len() - k,
    {
        k += 1;
    }
    k
}

/// Relies on std's `char::from_u32`: the character whose scalar value is
/// `v`, and `None` exactly where `v` is no Unicode scalar value.
#[verifier::external_body]
fn char_from_u32(v: u32) -> (r: Option<char>)
    ensures
        r is Some <==> is_scalar(v as int),
        r matches Some(c) ==> scalar_value(c) == v,
{
    char::from_u32(v)
}

/// The character of a scalar value that was checked.
fn scalar_char(v: u32) -> (r: char)
    requires
        is_scalar(v as int),
    ensures
        r == char_of(v as int),
{
    match char_from_u32(v) {
        Some(c) => {
            proof {
                vstd::utf8::char_u32_cast(c, v);
            }
            c
        },
        // Not reached: `v` is a scalar value.
        None => 'a',
    }
}

pub open spec fn chars_of_option(c: Option<char>) -> Seq<char> {
    match c {
        Some(c) => seq![c],
        None => seq![],
    }
}

fn escape_exec(text: &Vec<char>, pos: usize) -> (r: Option<(Option<char>, usize)>)
    requires
        pos < text.len(),
    ensures
        match r {
            Some((c, end)) => escape_at(text@, pos as int) == Some((chars_of_option(c), end as int))
                && end <= text.len(),
            None => escape_at(text@, pos as int) is None,
        },
{
    let n = text.len();
    if pos + 1 >= n {
        return None;
    }
    let c = text[pos + 1];
    if let Some(e) = escaped_char(c) {
        return Some((Some(e), pos + 2));
    }
    if c == 'x' {
        if n - pos > 3 && is_hex_char(text[pos + 2]) && is_hex_char(text[pos + 3]) {
            let v = hex_number(text, pos + 2, pos + 4);
            if v <= 0x7F {
                return Some((Some(scalar_char(v)), pos + 4));
            }
        }
        return None;
    }
    if c == 'u' {
        if n - pos > 2 && text[pos + 2] == '{' {
            let close = find_hex_end(text, pos + 3);
            if close > pos + 3 && close - pos <= 9 && close < n && text[close] == '}' {
                let v = hex_number(text, pos + 3, close);
                if v <= 0x10FFFF && !(0xD800 <= v && v <= 0xDFFF) {
                    return Some((Some(scalar_char(v)), close + 1));
                }
            }
        }
        return None;
    }
    if c == '\n' {
        return Some((None, skip_spaces(text, pos + 2)));
    }
    None
}

fn scan_quoted_exec(text: &Vec<char>, pos: usize) -> (r: Result<(Vec<char>, usize), usize>)
    requires
        pos <= text.len(),
    ensures
        match r {
            Ok((w, end)) => scan_quoted(text@, pos as int, seq![]) == Ok::<(Seq<char>, int), int>(
                (w@, end as int),
            ) && pos < end <= text.len(),
            Err(at) => scan_quoted(text@, pos as int, seq![]) == Err::<(Seq<char>, int), int>(
                at as int,
            ),
        },
{
    let mut acc: Vec<char> = Vec::new();
    let mut k = pos;
    assert(acc@ =~= seq![]);
    loop
        invariant
            pos <= k <= text.len(),
            scan_quoted(text@, pos as int, seq![]) == scan_quoted(text@, k as int, acc@),
        decreases text.len() - k,
    {
        if k >= text.len() {
            return Err(text.len());
        }
        let c = text[k];
        if c == '"' {
            return Ok((acc, k + 1));
        } else if c == '\\' {
            proof {
                lemma_escape_forward(text@, k as int);
            }
            match escape_exec(text, k) {
                Some((out, end)) => {
                    let ghost before = acc@;
                    if let Some(e) = out {
                        acc.push(e);
                    }
                    assert(acc@ =~= before + chars_of_option(out));
                    k = end;
                },
                None => {
                    return Err(k);
                },
            }
        } else {
            acc.push(c);
            k += 1;
        }
    }
}

fn find_hash_end(text: &Vec<char>, pos: usize) -> (r: usize)
    requires
        pos <= text.len(),
    ensures
        r == hash_end(text@, pos as int),
        pos <= r <= text.len(),
{
    let mut k = pos;
    while k < text.len() && text[k] == '#'
        invariant
            pos <= k <= text.len(),
            hash_end(text@, pos as int) == hash_end(text@, k as int),
        decreases text.len() - k,
    {
        k += 1;
    }
    k
}

fn raw_close_exec(text: &Vec<char>, k: usize, hashes: usize) -> (r: bool)
    requires
        k < text.len(),
    ensures
        r == raw_close_at(text@, k as int, hashes as int),
{
    if text[k] != '"' || text.len() - k <= hashes {
        return false;
    }
    for i in 1..hashes + 1
        invariant
            k + hashes < text.len(),
            forall|m: int| 1 <= m < i ==> #[trigger] text@[k + m] == '#',
    {
        if text[k + i] != '#' {
            return false;
        }
    }
    true
}

fn scan_raw_string_exec(text: &Vec<char>, pos: usize) -> (r: Result<(Vec<char>, usize), usize>)
    requires
        pos + 1 < text.len(),
        raw_string_at(text@, pos as int),
    ensures
        match r {
            Ok((w, end)) => scan_raw_string(text@, pos as int) == Ok::<(Seq<char>, int), int>(
                (w@, end as int),
            ) && pos < end <= text.len(),
            Err(at) => scan_raw_string(text@, pos as int) == Err::<(Seq<char>, int), int>(
                at as int,
            ),
        },
{
    let open = find_hash_end(text, pos + 1);
    if open >= text.len() || text[open] != '"' {
        return Err(pos);
    }
    let hashes = open - (pos + 1);
    let mut acc: Vec<char> = Vec::new();
    let mut k = open + 1;
    assert(acc@ =~= seq![]);
    loop
        invariant
            pos < open < k <= text.len(),
            hashes == open - (pos + 1),
            scan_raw_string(text@, pos as int) == scan_raw(text@, k as int, hashes as int, acc@),
        decreases text.len() - k,
    {
        if k >= text.len() {
            return Err(text.len());
        }
        if raw_close_exec(text, k, hashes) {
            return Ok((acc, k + 1 + hashes));
        }
        acc.push(text[k]);
        k += 1;
    }
}

fn scan_char_literal_exec(text: &Vec<char>, pos: usize) -> (r: Result<(char, usize), usize>)
    requires
        pos < text.len(),
    ensures
        match r {
            Ok((c, end)) => scan_char_literal(text@, pos as int) == Ok::<(char, int), int>(
                (c, end as int),
            ) && end <= text.len(),
            Err(at) => scan_char_literal(text@, pos as int) == Err::<(char, int), int>(at as int),
        },
{
    let n = text.len();
    if n - pos > 1 && text[pos + 1] == '\\' {
        if let Some((Some(e), end)) = escape_exec(text, pos + 1) {
            if end < n && text[end] == '\'' {
                return Ok((e, end + 1));
            }
        }
        return Err(pos);
    }
    if n - pos > 2 && text[pos + 1] != '\'' && text[pos + 2] == '\'' {
        return Ok((text[pos + 1], pos + 3));
    }
    Err(pos)
}

fn scan_segment_exec(text: &Vec<char>, pos: usize) -> (r: Result<(Field, usize), usize>)
    requires
        pos <= text.len(),
    ensures
        match r {
            Ok((f, end)) => scan_segment(text@, pos as int) == Ok::<(FieldView, int), int>(
                (f@, end as int),
            ) && pos < end <= text.len(),
            Err(at) => scan_segment(text@, pos as int) == Err::<(FieldView, int), int>(at as int),
        },
{
    if pos >= text.len() {
        return Err(pos);
    }
    let n = text.len();
    let c = text[pos];
    if c == '*' {
        if n - pos > 2 && text[pos + 1] == '*' && text[pos + 2] == '*' {
            Ok((Field::TripleGlob, pos + 3))
        } else if n - pos > 1 && text[pos + 1] == '*' {
            Ok((Field::DoubleGlob, pos + 2))
        } else {
            Ok((Field::Glob, pos + 1))
        }
    } else if c == 'r' && n - pos > 1 && (text[pos + 1] == '"' || text[pos + 1] == '#') {
        match scan_raw_string_exec(text, pos) {
            Ok((w, end)) => Ok((Field::Name { name: string_of(w) }, end)),
            Err(at) => Err(at),
        }
    } else if is_word_start_character(c) {
        let end = find_word_end(text, pos + 1);
        Ok((word_field_exec(chars_between(text, pos, end)), end))
    } else if c == '"' {
        match scan_quoted_exec(text, pos + 1) {
            Ok((w, end)) => Ok((Field::Name { name: string_of(w) }, end)),
            Err(at) => Err(at),
        }
    } else if c == '\'' {
        match scan_char_literal_exec(text, pos) {
            Ok((ch, end)) => {
                let mut w: Vec<char> = Vec::new();
                w.push(ch);
                assert(w@ =~= seq![ch]);
                Ok((Field::Name { name: string_of(w) }, end))
            },
            Err(at) => Err(at),
        }
    } else {
        Err(pos)
    }
}

// ---------------------------------------------------------------------------
// Paths.
// ---------------------------------------------------------------------------

/// One segment of path text, with the characters it spans.
pub struct Lexeme {
    pub field: FieldView,
    pub start: int,
    pub end: int,
}

pub open spec fn span_of(l: Lexeme) -> Span {
    Span { start: l.start as usize, end: l.end as usize }
}

proof fn lemma_skip_space_forward(s: Seq<char>, pos: int)
    ensures
        skip_space(s, pos) >= pos,
    decreases s.len() - pos,
{
    if 0 <= pos < s.len() && is_space(s[pos]) {
        lemma_skip_space_forward(s, pos + 1);
    }
}

proof fn lemma_skip_space_bounded(s: Seq<char>, pos: int)
    ensures
        pos <= s.len() ==> skip_space(s, pos) <= s.len(),
    decreases s.len() - pos,
{
    if 0 <= pos < s.len() && is_space(s[pos]) {
        lemma_skip_space_bounded(s, pos + 1);
    }
}

proof fn lemma_word_end_forward(s: Seq<char>, pos: int)
    ensures
        word_end(s, pos) >= pos,
    decreases s.len() - pos,
{
    if 0 <= pos < s.len() && is_word_char(s[pos]) {
        lemma_word_end_forward(s, pos + 1);
    }
}

proof fn lemma_quoted_forward(s: Seq<char>, pos: int, acc: Seq<char>)
    ensures
        scan_quoted(s, pos, acc) matches Ok((_, end)) ==> end > pos,
    decreases s.len() - pos,
{
    if 0 <= pos < s.len() && s[pos] != '"' {
        if s[pos] == '\\' {
            lemma_escape_forward(s, pos);
            if let Some((out, end)) = escape_at(s, pos) {
                lemma_quoted_forward(s, end, acc + out);
            }
        } else {
            lemma_quoted_forward(s, pos + 1, acc.push(s[pos]));
        }
    }
}

proof fn lemma_raw_forward(s: Seq<char>, k: int, hashes: int, acc: Seq<char>)
    requires
        hashes >= 0,
    ensures
        scan_raw(s, k, hashes, acc) matches Ok((_, end)) ==> end > k,
    decreases s.len() - k,
{
    if 0 <= k < s.len() && !raw_close_at(s, k, hashes) {
        lemma_raw_forward(s, k + 1, hashes, acc.push(s[k]));
    }
}

proof fn lemma_hash_end_forward(s: Seq<char>, pos: int)
    ensures
        hash_end(s, pos) >= pos,
    decreases s.len() - pos,
{
    if 0 <= pos < s.len() && s[pos] == '#' {
        lemma_hash_end_forward(s, pos + 1);
    }
}

/// A segment that is read ends after it starts.
proof fn lemma_segment_forward(s: Seq<char>, pos: int)
    ensures
        scan_segment(s, pos) matches Ok((_, end)) ==> end > pos,
{
    lemma_word_end_forward(s, pos + 1);
    let open = hash_end(s, pos + 1);
    lemma_hash_end_forward(s, pos + 1);
    lemma_raw_forward(s, open + 1, open - (pos + 1), seq![]);
    lemma_quoted_forward(s, pos + 1, seq![]);
}

/// The segments of a path from `pos` on, after the lexemes `acc` were read:
/// segments separated by `.`, with whitespace around them. Gives the
/// lexemes and the position after the path, or where it went wrong.
pub open spec fn scan_path(s: Seq<char>, pos: int, acc: Seq<Lexeme>) -> Result<
    (Seq<Lexeme>, int),
    int,
>
    decreases s.len() - pos,
    via scan_path_decreases
{
    let start = skip_space(s, pos);
    match scan_segment(s, start) {
        Err(at) => Err(at),
        Ok((field, end)) => {
            let found = acc.push(Lexeme { field, start, end });
            let next = skip_space(s, end);
            if 0 <= next < s.len() && s[next] == '.' {
                scan_path(s, next + 1, found)
            } else {
                Ok((found, next))
            }
        },
    }
}

#[via_fn]
proof fn scan_path_decreases(s: Seq<char>, pos: int, acc: Seq<Lexeme>) {
    let start = skip_space(s, pos);
    lemma_skip_space_forward(s, pos);
    lemma_segment_forward(s, start);
    if let Ok((field, end)) = scan_segment(s, start) {
        lemma_skip_space_forward(s, end);
    }
}

/// The first breach of the path rules at or after lexeme `k`, where
/// `triple` is the index of a triple glob seen before `k`: a segment after
/// a specifier, or a second triple glob.
pub open spec fn path_violation(t: Seq<Lexeme>, k: int, triple: Option<int>) -> Option<
    PermissionParseError,
>
    decreases t.len() - k,
{
    if !(0 <= k < t.len()) {
        None
    } else if k > 0 && t[k - 1].field is Specifier {
        match t[k - 1].field {
            FieldView::Specifier(specifier) => Some(
                PermissionParseError::AfterSpecifier {
                    specifier,
                    terminator: span_of(t[k - 1]),
                    next: span_of(t[k]),
                },
            ),
            _ => None,
        }
    } else if t[k].field is TripleGlob {
        match triple {
            Some(j) => Some(
                PermissionParseError::RepeatedTripleGlob {
                    first: span_of(t[j]),
                    second: span_of(t[k]),
                },
            ),
            None => path_violation(t, k + 1, Some(k)),
        }
    } else {
        path_violation(t, k + 1, triple)
    }
}

/// The rules of a path: it has a segment, at most one triple glob, and no
/// segment after a specifier.
pub open spec fn valid_path(p: Seq<FieldView>) -> bool {
    &&& p.len() > 0
    &&& forall|a: int, b: int|
        0 <= a < b < p.len() && #[trigger] p[a] is TripleGlob ==> !(#[trigger] p[b] is TripleGlob)
    &&& forall|k: int| 0 <= k < p.len() - 1 ==> !(#[trigger] p[k] is Specifier)
}

proof fn lemma_no_violation(t: Seq<Lexeme>, k: int, triple: Option<int>)
    requires
        0 <= k <= t.len(),
        path_violation(t, k, triple) is None,
        forall|m: int| 0 <= m < k - 1 ==> !(#[trigger] t[m].field is Specifier),
        triple is None ==> forall|m: int| 0 <= m < k ==> !(#[trigger] t[m].field is TripleGlob),
        triple matches Some(j) ==> 0 <= j < k && t[j].field is TripleGlob && forall|m: int|
            0 <= m < k && m != j ==> !(#[trigger] t[m].field is TripleGlob),
    ensures
        forall|m: int| 0 <= m < t.len() - 1 ==> !(#[trigger] t[m].field is Specifier),
        forall|a: int, b: int|
            0 <= a < b < t.len() && #[trigger] t[a].field is TripleGlob ==> !(
            #[trigger] t[b].field is TripleGlob),
    decreases t.len() - k,
{
    if k < t.len() {
        if t[k].field is TripleGlob {
            lemma_no_violation(t, k + 1, Some(k));
        } else {
            lemma_no_violation(t, k + 1, triple);
        }
    }
}

/// The path that starts at `pos` and the position after it.
pub open spec fn path_at(s: Seq<char>, pos: int) -> Result<(Seq<FieldView>, int), PermissionParseError> {
    match scan_path(s, pos, seq![]) {
        Err(at) => Err(PermissionParseError::InvalidToken { at: at as usize }),
        Ok((t, end)) => match path_violation(t, 0, None) {
            Some(e) => Err(e),
            None => Ok((t.map_values(|l: Lexeme| l.field), end)),
        },
    }
}

/// What parsing the whole of `s` as one path gives.
pub open spec fn parse_path(s: Seq<char>) -> Result<Seq<FieldView>, PermissionParseError> {
    match path_at(s, 0) {
        Err(e) => Err(e),
        Ok((p, end)) => if end == s.len() {
            Ok(p)
        } else {
            Err(PermissionParseError::InvalidToken { at: end as usize })
        },
    }
}

fn find_violation(fields: &Vec<Field>, spans: &Vec<Span>, Ghost(t): Ghost<Seq<Lexeme>>) -> (r:
    Option<PermissionParseError>)
    requires
        fields.len() == t.len() == spans.len(),
        forall|m: int|
            0 <= m < t.len() ==> (#[trigger] t[m]).field == fields@[m]@ && span_of(t[m])
                == spans@[m],
    ensures
        r == path_violation(t, 0, None),
{
    let mut triple: Option<usize> = None;
    let ghost mut triple_ghost: Option<int> = None;
    for k in 0..fields.len()
        invariant
            fields.len() == t.len() == spans.len(),
            forall|m: int|
                0 <= m < t.len() ==> (#[trigger] t[m]).field == fields@[m]@ && span_of(t[m])
                    == spans@[m],
            path_violation(t, 0, None) == path_violation(t, k as int, triple_ghost),
            triple_ghost == (match triple {
                Some(j) => Some(j as int),
                None => None::<int>,
            }),
            triple matches Some(j) ==> j < k,
    {
        if k > 0 {
            if let Field::Specifier { specifier } = &fields[k - 1] {
                assert(t[k - 1].field == fields@[k - 1]@);
                return Some(
                    PermissionParseError::AfterSpecifier {
                        specifier: *specifier,
                        terminator: spans[k - 1],
                        next: spans[k],
                    },
                );
            }
        }
        assert(t[k as int].field == fields@[k as int]@);
        if let Field::TripleGlob = &fields[k] {
            match triple {
                Some(j) => {
                    return Some(
                        PermissionParseError::RepeatedTripleGlob { first: spans[j], second: spans[k] },
                    );
                },
                None => {
                    triple = Some(k);
                    proof {
                        triple_ghost = Some(k as int);
                    }
                },
            }
        }
    }
    None
}

/// Reads the path that starts at `pos`, with the rules on its segments.
pub(crate) fn read_path(text: &Vec<char>, pos: usize) -> (r: Result<(PermissionItem, usize), PermissionParseError>)
    requires
        pos <= text.len(),
    ensures
        match r {
            Ok((p, end)) => path_at(text@, pos as int) == Ok::<
                (Seq<FieldView>, int),
                PermissionParseError,
            >((p@, end as int)) && pos < end <= text.len() && valid_path(p@),
            Err(e) => path_at(text@, pos as int) == Err::<(Seq<FieldView>, int), PermissionParseError>(
                e,
            ),
        },
{
    let mut fields: Vec<Field> = Vec::new();
    let mut spans: Vec<Span> = Vec::new();
    let ghost mut acc: Seq<Lexeme> = seq![];
    let mut k = pos;
    loop
        invariant
            pos <= k <= text.len(),
            scan_path(text@, pos as int, seq![]) == scan_path(text@, k as int, acc),
            fields.len() == acc.len() == spans.len(),
            forall|m: int|
                0 <= m < acc.len() ==> (#[trigger] acc[m]).field == fields@[m]@ && span_of(acc[m])
                    == spans@[m] && 0 <= acc[m].start <= acc[m].end <= text.len(),
            acc.len() > 0 ==> pos < k,
        decreases text.len() - k,
    {
        let start = skip_spaces(text, k);
        match scan_segment_exec(text, start) {
            Err(at) => {
                return Err(PermissionParseError::InvalidToken { at });
            },
            Ok((field, end)) => {
                let ghost lexeme = Lexeme { field: field@, start: start as int, end: end as int };
                fields.push(field);
                spans.push(Span { start, end });
                proof {
                    acc = acc.push(lexeme);
                }
                let next = skip_spaces(text, end);
                if next < text.len() && text[next] == '.' {
                    k = next + 1;
                } else {
                    match find_violation(&fields, &spans, Ghost(acc)) {
                        Some(e) => {
                            return Err(e);
                        },
                        None => {
                            let p = PermissionItem { perm: fields };
                            assert(p@ =~= acc.map_values(|l: Lexeme| l.field));
                            proof {
                                lemma_no_violation(acc, 0, None);
                            }
                            return Ok((p, next));
                        },
                    }
                }
            },
        }
    }
}

/// Parses a whole text as one permission path.
pub fn parse(permission: &String) -> (r: Result<PermissionItem, PermissionParseError>)
    ensures
        match r {
            Ok(p) => parse_path(permission@) == Ok::<Seq<FieldView>, PermissionParseError>(p@)
                && valid_path(p@),
            Err(e) => parse_path(permission@) == Err::<Seq<FieldView>, PermissionParseError>(e),
        },
{
    let text = chars_of(permission.as_str());
    match read_path(&text, 0) {
        Err(e) => Err(e),
        Ok((p, end)) => if end == text.len() {
            Ok(p)
        } else {
            Err(PermissionParseError::InvalidToken { at: end })
        },
    }
}

} // verus!
