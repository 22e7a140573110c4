//! Typed values of font properties, and the rules that decode their textual
//! encoding: quoted strings with doubled-quote escaping, and bare decimal
//! integer literals.

use vstd::prelude::*;
use vstd::string::StrSliceExecFns;
use vstd::string::StringExecFns;

use crate::numeral::decimal_string_of;
use crate::numeral::is_i64_literal;
use crate::numeral::lemma_decimal_string_i64_literal;
use crate::numeral::literal_value;
use crate::numeral::parse_i64;

verus! {

/// A `Font` property: either free text or a signed integer.
#[derive(PartialEq, Eq, Clone, Debug)]
pub enum Property {
    /// An arbitrary string payload.
    StringValue(String),
    /// A signed 64-bit integer payload.
    IntegerValue(i64),
}

/// The mathematical value of a `Property`: a sequence of characters or an
/// unbounded integer.
pub enum PropertyView {
    StringValue(Seq<char>),
    IntegerValue(int),
}

impl View for Property {
    type V = PropertyView;

    open spec fn view(&self) -> PropertyView {
        match self {
            Property::StringValue(s) => PropertyView::StringValue(s@),
            Property::IntegerValue(n) => PropertyView::IntegerValue(*n as int),
        }
    }
}

/// Collapses every pair of consecutive double-quote characters into a single
/// double-quote, scanning from the left.
pub open spec fn unescape_quotes(s: Seq<char>) -> Seq<char>
    decreases s.len(),
{
    if s.len() == 0 {
        Seq::empty()
    } else if s.len() >= 2 && s[0] == '"' && s[1] == '"' {
        seq!['"'] + unescape_quotes(s.skip(2))
    } else {
        seq![s[0]] + unescape_quotes(s.skip(1))
    }
}

/// Doubles every double-quote character, the inverse of `unescape_quotes`.
pub open spec fn escape_quotes(s: Seq<char>) -> Seq<char>
    decreases s.len(),
{
    if s.len() == 0 {
        Seq::empty()
    } else if s[0] == '"' {
        seq!['"', '"'] + escape_quotes(s.skip(1))
    } else {
        seq![s[0]] + escape_quotes(s.skip(1))
    }
}

/// The payload of a quoted token: the token with its opening and closing
/// quote removed.
pub open spec fn quoted_payload(s: Seq<char>) -> Seq<char>
    recommends
        s.len() >= 2,
{
    s.subrange(1, s.len() - 1)
}

/// Extract the payload of a quoted token: strip the first and last character
/// and collapse every doubled quote in between.
pub fn extract(string: &str) -> (r: String)
    requires
        string@.len() >= 2,
    ensures
        r@ == unescape_quotes(quoted_payload(string@)),
{
    let n = string.unicode_len();
    let mut r = String::new();
    let mut i: usize = 1;
    proof {
        assert(r@ + quoted_payload(string@) =~= quoted_payload(string@));
        assert(string@.subrange(1int, n - 1) =~= quoted_payload(string@));
    }
    while i < n - 1
        invariant
            2 <= n == string@.len(),
            1 <= i <= n - 1,
            r@ + unescape_quotes(string@.subrange(i as int, n - 1)) == unescape_quotes(
                quoted_payload(string@),
            ),
        decreases n - 1 - i,
    {
        let ghost rest = string@.subrange(i as int, n - 1);
        let c = string.get_char(i);
        r.append(string.substring_char(i, i + 1));
        if c == '"' && i + 2 <= n - 1 && string.get_char(i + 1) == '"' {
            proof {
                assert(rest.len() >= 2 && rest[0] == '"' && rest[1] == '"');
                assert(rest.skip(2) =~= string@.subrange(i + 2, n - 1));
                assert(string@.subrange(i as int, i + 1) =~= seq!['"']);
                assert(r@ + unescape_quotes(string@.subrange(i + 2, n - 1)) =~= unescape_quotes(
                    quoted_payload(string@),
                ));
            }
            i = i + 2;
        } else {
            proof {
                assert(rest.len() >= 1 && rest[0] == c);
                assert(!(rest.len() >= 2 && rest[0] == '"' && rest[1] == '"'));
                assert(rest.skip(1) =~= string@.subrange(i + 1, n - 1));
                assert(string@.subrange(i as int, i + 1) =~= seq![c]);
                assert(r@ + unescape_quotes(string@.subrange(i + 1, n - 1)) =~= unescape_quotes(
                    quoted_payload(string@),
                ));
            }
            i = i + 1;
        }
    }
    proof {
        assert(string@.subrange(i as int, n - 1).len() == 0);
        assert(r@ + unescape_quotes(string@.subrange(i as int, n - 1)) =~= r@);
    }
    r
}

/// What a raw property token denotes: a quoted token is its unescaped
/// payload, a decimal 64-bit literal is an integer, and any other token is
/// kept verbatim as text.
pub open spec fn parse_spec(s: Seq<char>) -> PropertyView
    recommends
        s.len() >= 1 && s[0] == '"' ==> s.len() >= 2,
{
    if s.len() >= 1 && s[0] == '"' {
        PropertyView::StringValue(unescape_quotes(quoted_payload(s)))
    } else if is_i64_literal(s) {
        PropertyView::IntegerValue(literal_value(s))
    } else {
        PropertyView::StringValue(s)
    }
}

impl Property {
    /// Parse a property token. A token that opens with a double quote is a
    /// quoted string, and the caller guarantees it is long enough to carry
    /// its closing quote; a decimal literal in 64-bit range is an integer;
    /// any other token is kept verbatim.
    pub fn parse(string: &str) -> (r: Property)
        requires
            string@.len() >= 1 && string@[0] == '"' ==> string@.len() >= 2,
        ensures
            r@ == parse_spec(string@),
    {
        let n = string.unicode_len();
        if n >= 1 && string.get_char(0) == '"' {
            Property::StringValue(extract(string))
        } else {
            match parse_i64(string) {
                Some(value) => Property::IntegerValue(value),
                None => Property::StringValue(string.to_owned()),
            }
        }
    }
}

/// Unescaping text that carries no double-quote character leaves it
/// unchanged.
pub proof fn lemma_unescape_plain(s: Seq<char>)
    requires
        forall|i: int| 0 <= i < s.len() ==> s[i] != '"',
    ensures
        unescape_quotes(s) == s,
    decreases s.len(),
{
    if s.len() == 0 {
        assert(unescape_quotes(s) =~= s);
    } else {
        assert(s[0] != '"');
        lemma_unescape_plain(s.skip(1));
        assert(seq![s[0]] + s.skip(1) =~= s);
    }
}

/// Law: a quoted token whose payload has no embedded quote characters
/// parses to exactly that payload.
pub proof fn lemma_parse_quoted_plain(s: Seq<char>)
    requires
        forall|i: int| 0 <= i < s.len() ==> s[i] != '"',
    ensures
        parse_spec(seq!['"'] + s + seq!['"']) == PropertyView::StringValue(s),
{
    let full = seq!['"'] + s + seq!['"'];
    assert(full[0] == '"');
    assert(full.len() == s.len() + 2);
    assert(quoted_payload(full) =~= s);
    lemma_unescape_plain(s);
}

/// Law: doubling every quote and then collapsing every doubled quote
/// returns any text unchanged.
pub proof fn lemma_unescape_escape_round_trip(s: Seq<char>)
    ensures
        unescape_quotes(escape_quotes(s)) == s,
    decreases s.len(),
{
    if s.len() == 0 {
        assert(unescape_quotes(escape_quotes(s)) =~= s);
    } else {
        lemma_unescape_escape_round_trip(s.skip(1));
        let e = escape_quotes(s.skip(1));
        if s[0] == '"' {
            let full = seq!['"', '"'] + e;
            assert(escape_quotes(s) == full);
            assert(full.len() >= 2 && full[0] == '"' && full[1] == '"');
            assert(full.skip(2) =~= e);
            assert(seq!['"'] + s.skip(1) =~= s);
        } else {
            let full = seq![s[0]] + e;
            assert(escape_quotes(s) == full);
            assert(full[0] == s[0]);
            assert(full.skip(1) =~= e);
            assert(seq![s[0]] + s.skip(1) =~= s);
        }
    }
}

/// Law: any text, escaped and wrapped in quotes, parses back to exactly
/// that text.
pub proof fn lemma_parse_escaped_round_trip(s: Seq<char>)
    ensures
        parse_spec(seq!['"'] + escape_quotes(s) + seq!['"']) == PropertyView::StringValue(s),
{
    let full = seq!['"'] + escape_quotes(s) + seq!['"'];
    assert(full[0] == '"');
    assert(full.len() >= 2);
    assert(quoted_payload(full) =~= escape_quotes(s));
    lemma_unescape_escape_round_trip(s);
}

/// Law: the decimal rendering of any signed 64-bit integer parses to that
/// integer.
pub proof fn lemma_parse_decimal_round_trip(n: i64)
    ensures
        parse_spec(decimal_string_of(n as int)) == PropertyView::IntegerValue(n as int),
{
    lemma_decimal_string_i64_literal(n);
    let s = decimal_string_of(n as int);
    assert(!(s.len() >= 1 && s[0] == '"'));
}

} // verus!
