//! Cookies: reading them from a header, entering them into a cookie jar, and the
//! file that they are stored in.

use vstd::prelude::*;
use vstd::string::*;

use crate::text::same;

verus! {

/// The directory that credentials are stored in.
pub const AUTH_DIR: &'static str = ".blarec";

/// The domain that cookies are for.
pub const COOKIE_DOMAIN: &'static str = "bilibili.com";

/// The URL that cookies are kept under in the jar.
pub const COOKIE_URL: &'static str = "https://bilibili.com";

/// What is stored of a login.
#[derive(Debug)]
pub struct AuthFile {
    pub mid: i64,
    pub name: String,
    pub cookies: String,
}

/// The file that credentials are stored in.
pub fn auth_file_path() -> (path: String)
    ensures
        path@ == ".blarec/auth.json"@,
{
    let mut path = String::new();
    path.append(AUTH_DIR);
    path.append("/auth.json");
    proof {
        reveal_strlit(".blarec");
        reveal_strlit("/auth.json");
        reveal_strlit(".blarec/auth.json");
    }
    assert(path@ =~= ".blarec/auth.json"@);
    path
}

/// A cookie: its name and its value.
#[derive(Debug)]
pub struct CookiePair {
    pub name: String,
    pub value: String,
}

impl View for CookiePair {
    type V = (Seq<char>, Seq<char>);

    open spec fn view(&self) -> (Seq<char>, Seq<char>) {
        (self.name@, self.value@)
    }
}

/// Cookies as their names and values.
pub open spec fn pairs(cookies: Seq<CookiePair>) -> Seq<(Seq<char>, Seq<char>)> {
    cookies.map_values(|cookie: CookiePair| cookie@)
}

/// The pieces of a cookie header, in order: name and value of each that is a
/// cookie, and `None` for each other.
pub open spec fn pieces(items: Seq<Option<CookiePair>>) -> Seq<Option<(Seq<char>, Seq<char>)>> {
    items.map_values(
        |item: Option<CookiePair>|
            match item {
                Some(cookie) => Some(cookie@),
                None => None,
            },
    )
}

/// What `cookie::Cookie::split_parse_encoded` makes of a header.
pub uninterp spec fn split_parsed(header: Seq<char>) -> Seq<Option<(Seq<char>, Seq<char>)>>;

/// `cookie::Cookie::split_parse_encoded`, run to its end: the name and the value
/// of each piece that it parses, `None` for each piece that it refuses. Claimed
/// is only that the result is a function of the header.
#[verifier::external_body]
fn split_parse_encoded(header: &str) -> (items: Vec<Option<CookiePair>>)
    ensures
        pieces(items@) == split_parsed(header@),
{
    cookie::Cookie::split_parse_encoded(header)
        .map(|piece| match piece {
            Ok(c) => Some(CookiePair { name: c.name().to_owned(), value: c.value().to_owned() }),
            Err(_) => None,
        })
        .collect()
}

/// The cookies among the pieces of a header.
pub open spec fn readable(items: Seq<Option<(Seq<char>, Seq<char>)>>) -> Seq<
    (Seq<char>, Seq<char>),
>
    decreases items.len(),
{
    if items.len() == 0 {
        Seq::empty()
    } else {
        match items.last() {
            Some(cookie) => readable(items.drop_last()).push(cookie),
            None => readable(items.drop_last()),
        }
    }
}

/// The cookies among the pieces of a header, in order; what is no cookie is left
/// out.
pub fn keep_readable(items: Vec<Option<CookiePair>>) -> (cookies: Vec<CookiePair>)
    ensures
        pairs(cookies@) == readable(pieces(items@)),
{
    let mut cookies: Vec<CookiePair> = Vec::new();
    let ghost all = pieces(items@);
    assert(pairs(cookies@) =~= readable(all.take(0)));
    let mut i: usize = 0;
    while i < items.len()
        invariant
            i <= items@.len(),
            all == pieces(items@),
            pairs(cookies@) == readable(all.take(i as int)),
        decreases items@.len() - i,
    {
        let ghost before = cookies@;
        assert(all.take(i + 1).drop_last() =~= all.take(i as int));
        assert(all.take(i + 1).last() == all[i as int]);
        match &items[i] {
            Some(cookie) => {
                let copy = CookiePair {
                    name: cookie.name.as_str().to_owned(),
                    value: cookie.value.as_str().to_owned(),
                };
                cookies.push(copy);
                assert(pairs(cookies@) =~= pairs(before).push(copy@));
            },
            None => {},
        }
        i += 1;
    }
    assert(all.take(all.len() as int) =~= all);
    cookies
}

/// The cookies of a header.
pub fn parse_cookies(cookies: &str) -> (r: Vec<CookiePair>)
    ensures
        pairs(r@) == readable(split_parsed(cookies@)),
{
    keep_readable(split_parse_encoded(cookies))
}

/// No cookie is made up, and none gets lost: those of two headers' pieces, one
/// after the other, are those of the one and then those of the other.
pub proof fn law_reading_is_piecewise(
    items: Seq<Option<(Seq<char>, Seq<char>)>>,
    more: Seq<Option<(Seq<char>, Seq<char>)>>,
)
    ensures
        readable(items + more) == readable(items) + readable(more),
    decreases more.len(),
{
    if more.len() == 0 {
        assert(items + more =~= items);
        assert(readable(items) + readable(more) =~= readable(items));
    } else {
        law_reading_is_piecewise(items, more.drop_last());
        assert((items + more).drop_last() =~= items + more.drop_last());
        assert((items + more).last() == more.last());
        assert(readable(items + more) =~= readable(items) + readable(more));
    }
}

/// A piece that is a cookie is read as that cookie, with its name and its whole value,
/// and a piece that is none is read as nothing.
pub proof fn law_cookie_is_read_whole(cookie: (Seq<char>, Seq<char>))
    ensures
        readable(seq![Some(cookie)]) == seq![cookie],
        readable(seq![None]) == Seq::<(Seq<char>, Seq<char>)>::empty(),
        readable(Seq::empty()) == Seq::<(Seq<char>, Seq<char>)>::empty(),
{
    let none = Seq::<(Seq<char>, Seq<char>)>::empty();
    let one = seq![Some(cookie)];
    let refused: Seq<Option<(Seq<char>, Seq<char>)>> = seq![None];
    assert(one.drop_last() =~= Seq::empty());
    assert(refused.drop_last() =~= Seq::empty());
    assert(readable(one.drop_last()) =~= none);
    assert(none.push(cookie) =~= seq![cookie]);
}

/// Of the pieces of a header exactly those that are cookies are read, each as it is
/// and in their order.
pub proof fn law_every_cookie_is_read(items: Seq<Option<(Seq<char>, Seq<char>)>>)
    ensures
        readable(items) == items.filter(
            |item: Option<(Seq<char>, Seq<char>)>| item is Some,
        ).map_values(|item: Option<(Seq<char>, Seq<char>)>| item->0),
    decreases items.len(),
{
    let is_cookie = |item: Option<(Seq<char>, Seq<char>)>| item is Some;
    let as_cookie = |item: Option<(Seq<char>, Seq<char>)>| item->0;
    reveal(Seq::filter);
    if items.len() == 0 {
        assert(readable(items) =~= items.filter(is_cookie).map_values(as_cookie));
    } else {
        let front = items.drop_last();
        law_every_cookie_is_read(front);
        if items.last() is Some {
            assert(items.filter(is_cookie).map_values(as_cookie) =~= front.filter(
                is_cookie,
            ).map_values(as_cookie).push(items.last()->0));
        }
    }
}

/// Whether a byte of a name or a value is written in hexadecimal: control
/// characters, what is not ASCII, and the characters that separate things in
/// headers and URLs.
pub open spec fn is_escaped(b: u8) -> bool {
    ||| b <= 0x20
    ||| b >= 0x7F
    ||| b == '"' as u8
    ||| b == '#' as u8
    ||| b == '%' as u8
    ||| b == '(' as u8
    ||| b == ')' as u8
    ||| b == ',' as u8
    ||| b == '/' as u8
    ||| b == ':' as u8
    ||| b == ';' as u8
    ||| b == '<' as u8
    ||| b == '=' as u8
    ||| b == '>' as u8
    ||| b == '?' as u8
    ||| b == '@' as u8
    ||| b == '[' as u8
    ||| b == '\\' as u8
    ||| b == ']' as u8
    ||| b == '^' as u8
    ||| b == '`' as u8
    ||| b == '{' as u8
    ||| b == '|' as u8
    ||| b == '}' as u8
}

/// The hexadecimal digit `d`, for `d` below sixteen.
pub open spec fn hex_digit(d: u8) -> char {
    if d < 10 {
        (48 + d) as char
    } else {
        (55 + d) as char
    }
}

/// One byte of a name or a value.
pub open spec fn escaped_byte(b: u8) -> Seq<char> {
    if is_escaped(b) {
        seq!['%', hex_digit((b / 16) as u8), hex_digit((b % 16) as u8)]
    } else {
        seq![b as char]
    }
}

/// A name or a value, percent-encoded.
pub open spec fn escaped(text: Seq<char>) -> Seq<char> {
    vstd::utf8::encode_utf8(text).map_values(|b: u8| escaped_byte(b)).flatten()
}

/// The entry for a cookie of this domain.
pub open spec fn entry(name: Seq<char>, value: Seq<char>, domain: Seq<char>) -> Seq<char> {
    escaped(name) + "="@ + escaped(value) + "; Domain="@ + (if domain.len() > 0 && domain[0] == '.' {
        domain.skip(1)
    } else {
        domain
    })
}

/// A `cookie::Cookie` made with `new`, given its domain with `set_domain`, and
/// written with `encoded().to_string()`: name and value percent-encoded, then the
/// domain, without a dot that it begins with, and no other attribute.
#[verifier::external_body]
fn encoded_cookie(name: &str, value: &str, domain: &str) -> (text: String)
    ensures
        text@ == entry(name@, value@, domain@),
{
    let mut cookie = cookie::Cookie::new(name, value);
    cookie.set_domain(domain);
    cookie.encoded().to_string()
}

/// What is entered into the cookie jar, one entry for each cookie.
pub fn jar_entries(cookies: &Vec<CookiePair>) -> (entries: Vec<String>)
    ensures
        entries@.len() == cookies@.len(),
        forall|i: int|
            0 <= i < cookies@.len() ==> (#[trigger] entries@[i])@ == entry(
                cookies@[i].name@,
                cookies@[i].value@,
                COOKIE_DOMAIN@,
            ),
{
    let mut entries: Vec<String> = Vec::new();
    let mut i: usize = 0;
    while i < cookies.len()
        invariant
            i <= cookies@.len(),
            entries@.len() == i,
            forall|j: int|
                0 <= j < i ==> (#[trigger] entries@[j])@ == entry(
                    cookies@[j].name@,
                    cookies@[j].value@,
                    COOKIE_DOMAIN@,
                ),
        decreases cookies@.len() - i,
    {
        let cookie = &cookies[i];
        entries.push(encoded_cookie(cookie.name.as_str(), cookie.value.as_str(), COOKIE_DOMAIN));
        i += 1;
    }
    entries
}

/// A character that separates nothing: visible ASCII without the separators.
pub open spec fn is_plain(c: char) -> bool {
    c == '%' || ' ' < c <= '~' && !is_escaped(c as u8)
}

/// An encoded name or value cannot be taken for more than one: it is made of
/// characters that separate nothing.
pub proof fn law_escaped_text_is_plain(text: Seq<char>)
    ensures
        forall|i: int| 0 <= i < escaped(text).len() ==> is_plain(#[trigger] escaped(text)[i]),
{
    lemma_escaped_bytes(vstd::utf8::encode_utf8(text));
}

proof fn lemma_escaped_bytes(bytes: Seq<u8>)
    ensures
        ({
            let text = bytes.map_values(|b: u8| escaped_byte(b)).flatten();
            forall|i: int| 0 <= i < text.len() ==> is_plain(#[trigger] text[i])
        }),
    decreases bytes.len(),
{
    let parts = bytes.map_values(|b: u8| escaped_byte(b));
    if bytes.len() > 0 {
        let rest = bytes.drop_first();
        lemma_escaped_bytes(rest);
        assert(parts.drop_first() =~= rest.map_values(|b: u8| escaped_byte(b)));
        let head = escaped_byte(bytes[0]);
        let tail = parts.drop_first().flatten();
        assert(parts.flatten() == head + tail);
        assert forall|i: int| 0 <= i < head.len() implies is_plain(#[trigger] head[i]) by {}
        assert forall|i: int| 0 <= i < parts.flatten().len() implies is_plain(
            #[trigger] parts.flatten()[i],
        ) by {
            if i >= head.len() {
                assert(parts.flatten()[i] == tail[i - head.len()]);
            } else {
                assert(parts.flatten()[i] == head[i]);
            }
        }
    }
}

/// The value of the first cookie of this name.
pub open spec fn value_of(cookies: Seq<(Seq<char>, Seq<char>)>, name: Seq<char>) -> Option<
    Seq<char>,
>
    decreases cookies.len(),
{
    if cookies.len() == 0 {
        None
    } else if cookies[0].0 == name {
        Some(cookies[0].1)
    } else {
        value_of(cookies.skip(1), name)
    }
}

/// The value of the first cookie of this name.
pub fn find_cookie(cookies: &Vec<CookiePair>, name: &str) -> (value: Option<String>)
    ensures
        value is Some == value_of(pairs(cookies@), name@) is Some,
        value matches Some(v) ==> value_of(pairs(cookies@), name@) == Some(v@),
{
    let ghost all = pairs(cookies@);
    assert(all.skip(0) =~= all);
    let mut i: usize = 0;
    while i < cookies.len()
        invariant
            i <= cookies@.len(),
            all == pairs(cookies@),
            value_of(all, name@) == value_of(all.skip(i as int), name@),
        decreases cookies@.len() - i,
    {
        assert(all[i as int] == cookies@[i as int]@);
        if same(cookies[i].name.as_str(), name) {
            return Some(cookies[i].value.as_str().to_owned());
        }
        assert(all.skip(i as int).skip(1) =~= all.skip(i + 1));
        i += 1;
    }
    None
}

/// The value that is found is that of the first cookie of this name, whole, and none is
/// found if and only if no cookie has this name.
pub proof fn law_first_cookie_is_found(cookies: Seq<(Seq<char>, Seq<char>)>, name: Seq<char>)
    ensures
        value_of(cookies, name) matches Some(value) ==> exists|i: int|
            0 <= i < cookies.len() && #[trigger] cookies[i] == (name, value) && (forall|j: int|
                0 <= j < i ==> (#[trigger] cookies[j]).0 != name),
        value_of(cookies, name) is None <==> (forall|i: int|
            0 <= i < cookies.len() ==> (#[trigger] cookies[i]).0 != name),
    decreases cookies.len(),
{
    if cookies.len() > 0 {
        let rest = cookies.skip(1);
        assert forall|i: int| 0 <= i < rest.len() implies #[trigger] rest[i] == cookies[i + 1] by {}
        if cookies[0].0 == name {
            assert(cookies[0] == (name, cookies[0].1));
        } else {
            law_first_cookie_is_found(rest, name);
            if let Some(value) = value_of(cookies, name) {
                let i = choose|i: int|
                    0 <= i < rest.len() && #[trigger] rest[i] == (name, value) && (forall|j: int|
                        0 <= j < i ==> (#[trigger] rest[j]).0 != name);
                assert(cookies[i + 1] == (name, value));
                assert forall|j: int| 0 <= j < i + 1 implies (#[trigger] cookies[j]).0 != name by {
                    if j > 0 {
                        assert(rest[j - 1].0 != name);
                    }
                }
            } else {
                assert forall|i: int| 0 <= i < cookies.len() implies (
                #[trigger] cookies[i]).0 != name by {
                    if i > 0 {
                        assert(rest[i - 1].0 != name);
                    }
                }
            }
            if forall|i: int| 0 <= i < cookies.len() ==> (#[trigger] cookies[i]).0 != name {
                assert forall|i: int| 0 <= i < rest.len() implies (
                #[trigger] rest[i]).0 != name by {
                    assert(cookies[i + 1].0 != name);
                }
            }
        }
    }
}

/// The number that a hexadecimal digit stands for.
pub open spec fn hex_value(c: char) -> int {
    if '0' <= c <= '9' {
        c as int - '0' as int
    } else {
        c as int - 'A' as int + 10
    }
}

/// The bytes that a percent-encoded text stands for.
pub open spec fn unescaped(text: Seq<char>) -> Seq<int>
    decreases text.len(),
{
    if text.len() == 0 {
        Seq::empty()
    } else if text[0] == '%' && text.len() >= 3 {
        seq![16 * hex_value(text[1]) + hex_value(text[2])] + unescaped(text.skip(3))
    } else {
        seq![text[0] as int] + unescaped(text.skip(1))
    }
}

proof fn lemma_unescaped_bytes(bytes: Seq<u8>)
    ensures
        unescaped(bytes.map_values(|b: u8| escaped_byte(b)).flatten()) == bytes.map_values(
            |b: u8| b as int,
        ),
    decreases bytes.len(),
{
    let parts = bytes.map_values(|b: u8| escaped_byte(b));
    let text = parts.flatten();
    let plain = bytes.map_values(|b: u8| b as int);
    if bytes.len() == 0 {
        assert(unescaped(text) =~= plain);
    } else {
        let rest = bytes.drop_first();
        lemma_unescaped_bytes(rest);
        assert(parts.drop_first() =~= rest.map_values(|b: u8| escaped_byte(b)));
        let b = bytes[0];
        let head = escaped_byte(b);
        let tail = parts.drop_first().flatten();
        assert(text == head + tail);
        assert(plain =~= seq![b as int] + rest.map_values(|b: u8| b as int));
        if is_escaped(b) {
            assert(text.skip(3) =~= tail);
            assert(text[0] == head[0] && text[1] == head[1] && text[2] == head[2]);
            let high = (b / 16) as u8;
            let low = (b % 16) as u8;
            assert(hex_value(hex_digit(high)) == high && hex_value(hex_digit(low)) == low);
            assert(16 * high + low == b);
        } else {
            assert(text.skip(1) =~= tail);
            assert(text[0] == head[0]);
            assert(head[0] != '%');
        }
    }
}

/// An encoded name or value reads back as what it was, byte for byte.
pub proof fn law_escaped_text_reads_back(text: Seq<char>)
    ensures
        unescaped(escaped(text)) == vstd::utf8::encode_utf8(text).map_values(|b: u8| b as int),
{
    lemma_unescaped_bytes(vstd::utf8::encode_utf8(text));
}

/// The entry for a cookie begins with its encoded name, up to the first equals sign,
/// and its encoded value, up to the first semicolon, and then names the domain.
pub proof fn law_entry_tells_name_and_value(
    name: Seq<char>,
    value: Seq<char>,
    domain: Seq<char>,
)
    requires
        domain.len() > 0,
        domain[0] != '.',
    ensures
        ({
            let text = entry(name, value, domain);
            let equals = crate::text::first_at(text, '=');
            let semicolon = crate::text::first_at(text, ';');
            &&& text.take(equals) == escaped(name)
            &&& text.subrange(equals + 1, semicolon) == escaped(value)
            &&& text.skip(semicolon) == "; Domain="@ + domain
        }),
{
    reveal_strlit("=");
    reveal_strlit("; Domain=");
    let text = entry(name, value, domain);
    let first = escaped(name);
    let second = escaped(value);
    let at = first.len() as int;
    let end = at + 1 + second.len();
    law_escaped_text_is_plain(name);
    law_escaped_text_is_plain(value);
    assert(text =~= first + seq!['='] + second + ("; Domain="@ + domain));
    assert(text[at] == '=');
    assert(text[end] == "; Domain="@[0]);
    assert forall|j: int| 0 <= j < at implies text[j] != '=' && text[j] != ';' by {
        assert(text[j] == first[j]);
        assert(is_plain(first[j]));
    }
    assert forall|j: int| at < j < end implies text[j] != ';' by {
        assert(text[j] == second[j - at - 1]);
        assert(is_plain(second[j - at - 1]));
    }
    crate::text::lemma_first_at(text, '=');
    crate::text::lemma_first_at(text, ';');
    assert(crate::text::first_at(text, '=') == at);
    assert(crate::text::first_at(text, ';') == end);
    assert(text.take(at) =~= first);
    assert(text.subrange(at + 1, end) =~= second);
    assert(text.skip(end) =~= "; Domain="@ + domain);
}

/// Whether a byte of a header can be read as text: visible ASCII, a space or a tab.
pub open spec fn is_text(b: u8) -> bool {
    32 <= b < 127 || b == 9
}

/// `reqwest::header::HeaderValue::to_str`, of the header that `from_bytes` makes of
/// these bytes: text if and only if all bytes are visible ASCII, spaces or tabs,
/// and then one character for each byte.
#[verifier::external_body]
fn header_text(bytes: &[u8]) -> (text: Option<String>)
    ensures
        text is Some == (forall|i: int| 0 <= i < bytes@.len() ==> is_text(#[trigger] bytes@[i])),
        text matches Some(t) ==> t@ == bytes@.map_values(|b: u8| b as char),
{
    let value = reqwest::header::HeaderValue::from_bytes(bytes).ok()?;
    value.to_str().ok().map(|text| text.to_owned())
}

/// Why the cookies of the jar cannot be stored.
#[derive(Debug, Clone, Copy, PartialEq, Eq, Structural)]
pub enum CookieError {
    /// There are none.
    Missing,
    /// They cannot be read as text.
    NotText,
}

impl CookieError {
    /// What the user is told.
    pub fn message(&self) -> (text: String)
        ensures
            *self == CookieError::Missing ==> text@ == "Auth cookies should be set"@,
            *self == CookieError::NotText ==> text@ == "failed to convert header to a str"@,
    {
        match self {
            CookieError::Missing => "Auth cookies should be set".to_owned(),
            CookieError::NotText => "failed to convert header to a str".to_owned(),
        }
    }
}

/// The text that a header can be read as, if it can.
pub open spec fn text_of(header: Seq<u8>) -> Option<Seq<char>> {
    if forall|i: int| 0 <= i < header.len() ==> is_text(#[trigger] header[i]) {
        Some(header.map_values(|b: u8| b as char))
    } else {
        None
    }
}

/// A header reads back as the text that was put into it, one byte for each character,
/// if all of that is visible ASCII, spaces and tabs.
pub proof fn law_header_reads_back(text: Seq<char>)
    requires
        forall|i: int|
            0 <= i < text.len() ==> ' ' <= #[trigger] text[i] <= '~' || text[i] == '\t',
    ensures
        text_of(text.map_values(|c: char| c as u8)) == Some(text),
{
    let header = text.map_values(|c: char| c as u8);
    assert forall|i: int| 0 <= i < header.len() implies is_text(#[trigger] header[i]) by {
        assert(' ' <= text[i] <= '~' || text[i] == '\t');
    }
    assert(header.map_values(|b: u8| b as char) =~= text) by {
        assert forall|i: int| 0 <= i < text.len() implies #[trigger] header[i] as char
            == text[i] by {
            assert(' ' <= text[i] <= '~' || text[i] == '\t');
        }
    }
}

/// A header with any other byte in it cannot be read.
pub proof fn law_other_header_is_not_text(header: Seq<u8>, i: int)
    requires
        0 <= i < header.len(),
        header[i] < 32 && header[i] != 9 || header[i] > 126,
    ensures
        text_of(header) is None,
{
    assert(!is_text(header[i]));
}

/// The cookies of the jar as text, given the header that they make up.
pub fn current_cookies(header: Option<&[u8]>) -> (r: Result<String, CookieError>)
    ensures
        match header {
            None => r == Err::<String, CookieError>(CookieError::Missing),
            Some(bytes) => if forall|i: int|
                0 <= i < bytes@.len() ==> is_text(#[trigger] bytes@[i]) {
                r matches Ok(text) && text@ == bytes@.map_values(|b: u8| b as char)
            } else {
                r == Err::<String, CookieError>(CookieError::NotText)
            },
        },
        header matches Some(bytes) ==> text_of(bytes@) == (match r {
            Ok(text) => Some(text@),
            Err(_) => None,
        }),
{
    match header {
        None => Err(CookieError::Missing),
        Some(bytes) => match header_text(bytes) {
            Some(text) => Ok(text),
            None => Err(CookieError::NotText),
        },
    }
}

} // verus!
