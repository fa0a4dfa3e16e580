//! IRIs as values: the text of an IRI reference that `rdftk_iri` has read,
//! compared by that text.

use crate::error::Error;
use crate::text::{chars_of, decimal_value, is_digit};
use rdftk_iri::IRI;
use std::str::FromStr;
use vstd::prelude::*;
use vstd::std_specs::cmp::PartialEqSpecImpl;

verus! {

/// Whether `c` ends the scheme and the authority of an IRI reference.
pub open spec fn is_component_end(c: char) -> bool {
    c == '/' || c == '?' || c == '#'
}

/// The first index at or after `from` that holds `:`, `/`, `?` or `#`, or the
/// length of `s` if there is none.
pub open spec fn scheme_end(s: Seq<char>, from: int) -> int
    decreases s.len() - from,
{
    if from < 0 || from >= s.len() {
        s.len() as int
    } else if s[from] == ':' || is_component_end(s[from]) {
        from
    } else {
        scheme_end(s, from + 1)
    }
}

/// Whether `s` begins with a scheme: one or more characters other than `:`,
/// `/`, `?` and `#`, followed by a colon.
pub open spec fn has_scheme(s: Seq<char>) -> bool {
    let e = scheme_end(s, 0);
    0 < e && e < s.len() && s[e] == ':'
}

/// Where the part after the scheme begins.
pub open spec fn after_scheme(s: Seq<char>) -> int {
    if has_scheme(s) {
        scheme_end(s, 0) + 1
    } else {
        0
    }
}

/// Whether an authority follows the scheme: the rest begins with `//`.
pub open spec fn has_authority(s: Seq<char>) -> bool {
    let a = after_scheme(s);
    a + 1 < s.len() && s[a] == '/' && s[a + 1] == '/'
}

/// The first index at or after `from` that holds `/`, `?` or `#`, or the
/// length of `s` if there is none.
pub open spec fn authority_end(s: Seq<char>, from: int) -> int
    decreases s.len() - from,
{
    if from < 0 || from >= s.len() {
        s.len() as int
    } else if is_component_end(s[from]) {
        from
    } else {
        authority_end(s, from + 1)
    }
}

/// The authority of `s`: what stands between `//` and the next `/`, `?` or
/// `#`.
pub open spec fn authority(s: Seq<char>) -> Seq<char>
    recommends
        has_authority(s),
{
    s.subrange(after_scheme(s) + 2, authority_end(s, after_scheme(s) + 2))
}

/// The index of the last colon in `s[..upto]`, or -1.
pub open spec fn last_colon(s: Seq<char>, upto: int) -> int
    decreases upto,
{
    if upto <= 0 || upto > s.len() {
        -1
    } else if s[upto - 1] == ':' {
        upto - 1
    } else {
        last_colon(s, upto - 1)
    }
}

/// Whether `c` can stand in a run that a port pattern takes for digits: a
/// decimal digit, or any character outside ASCII.
pub open spec fn is_port_like(c: char) -> bool {
    is_digit(c) || c as u32 >= 128
}

/// Whether `p` is a decimal numeral of a number that fits in sixteen bits.
pub open spec fn is_port_number(p: Seq<char>) -> bool {
    p.len() > 0 && (forall|i: int| 0 <= i < p.len() ==> is_digit(#[trigger] p[i]))
        && decimal_value(p) <= 65535
}

/// Whether the authority of `s` ends in a colon and a run of digits that is
/// no port number. `rdftk_iri` cannot read such a reference.
pub open spec fn port_out_of_range(s: Seq<char>) -> bool {
    has_authority(s) && {
        let auth = authority(s);
        let k = last_colon(auth, auth.len() as int);
        let port = auth.skip(k + 1);
        k >= 0 && port.len() > 0 && (forall|i: int|
            0 <= i < port.len() ==> is_port_like(#[trigger] port[i])) && !is_port_number(port)
    }
}

/// What `rdftk_iri` makes of an IRI reference that it accepts: the text that
/// it writes the parsed reference back as.
pub uninterp spec fn iri_normal_form(text: Seq<char>) -> Option<Seq<char>>;

/// Calls `IRI::from_str` of `rdftk_iri`, and on the result `to_string` and
/// `is_relative_reference`. The text that comes back is named, not stated.
/// The reference is relative exactly when the text has no scheme, as the
/// pattern that `from_str` splits the text with shows. References whose port
/// is out of range are kept away: `from_str` unwraps the port it has read.
#[verifier::external_body]
fn read_iri(text: &str) -> (r: Option<(String, bool)>)
    requires
        !port_out_of_range(text@),
    ensures
        r is Some <==> iri_normal_form(text@) is Some,
        r matches Some((form, relative)) ==> iri_normal_form(text@) == Some(form@) && relative
            == !has_scheme(text@),
{
    match IRI::from_str(text) {
        Ok(iri) => Some((iri.to_string(), iri.is_relative_reference())),
        Err(_) => None,
    }
}

/// Decides `port_out_of_range`.
pub fn has_port_out_of_range(s: &Vec<char>) -> (r: bool)
    ensures
        r == port_out_of_range(s@),
{
    let n = s.len();
    // the scheme
    let mut e: usize = 0;
    while e < n && !(s[e] == ':' || s[e] == '/' || s[e] == '?' || s[e] == '#')
        invariant
            e <= n == s.len(),
            scheme_end(s@, 0) == scheme_end(s@, e as int),
        decreases n - e,
    {
        e = e + 1;
    }
    let a: usize = if 0 < e && e < n && s[e] == ':' {
        e + 1
    } else {
        0
    };
    assert(a == after_scheme(s@));
    if !(a < n && n - a >= 2 && s[a] == '/' && s[a + 1] == '/') {
        return false;
    }
    // the authority
    let start: usize = a + 2;
    let mut end: usize = start;
    while end < n && !(s[end] == '/' || s[end] == '?' || s[end] == '#')
        invariant
            start <= end <= n == s.len(),
            authority_end(s@, start as int) == authority_end(s@, end as int),
        decreases n - end,
    {
        end = end + 1;
    }
    let ghost auth = authority(s@);
    assert(auth == s@.subrange(start as int, end as int));
    // the last colon in it
    let mut k: usize = end;
    while k > start && s[k - 1] != ':'
        invariant
            start <= k <= end <= n == s.len(),
            auth == s@.subrange(start as int, end as int),
            last_colon(auth, auth.len() as int) == last_colon(auth, k - start),
        decreases k,
    {
        k = k - 1;
    }
    if k == start {
        return false;
    }
    let ghost port = auth.skip(k - start);
    assert(last_colon(auth, auth.len() as int) == k - start - 1);
    assert(port == s@.subrange(k as int, end as int));
    if k == end {
        return false;
    }
    assert(port_out_of_range(s@) == ((forall|j: int|
        0 <= j < port.len() ==> is_port_like(#[trigger] port[j])) && !is_port_number(port)));
    // the run behind it
    let mut i: usize = k;
    let mut digits: bool = true;
    let mut value: u32 = 0;
    while i < end
        invariant
            k <= i <= end <= n == s.len(),
            port == s@.subrange(k as int, end as int),
            port_out_of_range(s@) == ((forall|j: int|
                0 <= j < port.len() ==> is_port_like(#[trigger] port[j])) && !is_port_number(
                port,
            )),
            forall|j: int| 0 <= j < i - k ==> is_port_like(#[trigger] port[j]),
            digits == (forall|j: int| 0 <= j < i - k ==> is_digit(#[trigger] port[j])),
            digits ==> value <= 65536 && (value == 65536 <==> decimal_value(
                port.subrange(0, i - k),
            ) > 65535) && (value < 65536 ==> value == decimal_value(port.subrange(0, i - k))),
        decreases end - i,
    {
        let c = s[i];
        assert(c == port[i - k]);
        let digit = '0' <= c && c <= '9';
        if !digit && (c as u32) < 128 {
            assert(!is_port_like(port[i - k]));
            return false;
        }
        proof {
            let before = port.subrange(0, i - k);
            let now = port.subrange(0, i - k + 1);
            assert(now.drop_last() == before);
            assert(now.last() == c);
        }
        if digit && digits {
            let d: u32 = c as u32 - 48;
            if value >= 6554 {
                value = 65536;
            } else {
                value = value * 10 + d;
                if value > 65535 {
                    value = 65536;
                }
            }
        } else {
            digits = false;
        }
        i = i + 1;
    }
    assert(port.subrange(0, port.len() as int) == port);
    !(digits && value <= 65535)
}

/// An IRI reference: its text, and whether it has a scheme.
#[derive(Debug, Hash)]
pub struct Iri {
    text: String,
    scheme: bool,
}

impl View for Iri {
    type V = Seq<char>;

    /// The text of the reference.
    closed spec fn view(&self) -> Seq<char> {
        self.text@
    }
}

impl Iri {
    /// Whether the reference has no scheme.
    pub closed spec fn relative(&self) -> bool {
        !self.scheme
    }

    /// Makes an IRI of what `rdftk_iri` has read from a text: `read` is the
    /// text that it wrote back and whether the reference is relative.
    pub fn from_reading(text: &str, read: Option<(String, bool)>) -> (r: Result<Iri, Error>)
        ensures
            match read {
                Some((form, relative)) => r matches Ok(iri) && iri@ == form@ && iri.relative()
                    == relative,
                None => r matches Err(e) && e@ == crate::error::ErrorView::InvalidIri(text@),
            },
    {
        match read {
            Some((form, relative)) => Ok(Iri { text: form, scheme: !relative }),
            None => Err(Error::InvalidIri(text.to_owned())),
        }
    }

    /// Reads an IRI reference, absolute or relative. The text is handed to
    /// `rdftk_iri`, unless its port is out of range.
    pub fn parse(text: &str) -> (r: Result<Iri, Error>)
        ensures
            match r {
                Ok(iri) => !port_out_of_range(text@) && iri_normal_form(text@) == Some(iri@)
                    && iri.relative() == !has_scheme(text@),
                Err(e) => e@ == crate::error::ErrorView::InvalidIri(text@) && (port_out_of_range(
                    text@,
                ) || iri_normal_form(text@) is None),
            },
    {
        let chars = chars_of(text);
        if has_port_out_of_range(&chars) {
            Err(Error::InvalidIri(text.to_owned()))
        } else {
            Iri::from_reading(text, read_iri(text))
        }
    }

    /// An IRI with a scheme whose text is known to be well formed.
    pub(crate) fn known(text: &str) -> (r: Iri)
        ensures
            r@ == text@,
            !r.relative(),
    {
        Iri { text: text.to_owned(), scheme: true }
    }

    /// The text of the reference.
    pub fn as_str(&self) -> (r: &str)
        ensures
            r@ == self@,
    {
        self.text.as_str()
    }

    /// The text of the reference.
    pub fn to_string(&self) -> (r: String)
        ensures
            r@ == self@,
    {
        self.text.clone()
    }

    /// Whether the reference has no scheme.
    pub fn is_relative_reference(&self) -> (r: bool)
        ensures
            r == self.relative(),
    {
        !self.scheme
    }
}

impl Clone for Iri {
    fn clone(&self) -> (r: Self)
        ensures
            r@ == self@,
            r.relative() == self.relative(),
    {
        Iri { text: self.text.clone(), scheme: self.scheme }
    }
}

impl PartialEq for Iri {
    fn eq(&self, other: &Self) -> (r: bool) {
        self.text == other.text
    }
}

impl Eq for Iri {

}

impl PartialEqSpecImpl for Iri {
    open spec fn obeys_eq_spec() -> bool {
        true
    }

    open spec fn eq_spec(&self, other: &Self) -> bool {
        self@ == other@
    }
}

} // verus!
