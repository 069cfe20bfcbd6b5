//! Header names, header values and the header map.

use crate::http::pairs::{distinct, index_of, lemma_index_of_is, lemma_put, put, value_of, Pairs};
use crate::text::{ascii_lower, chars_of, decimal, decimal_string, same, to_ascii_lower};
use vstd::prelude::*;

verus! {

/// The characters that a header value may hold: everything but the control
/// characters, and the tab among those.
pub open spec fn is_value_char(c: char) -> bool {
    (c >= ' ' && c != '\u{7f}') || c == '\t'
}

/// A header value: any run of value characters, the empty one too.
pub open spec fn is_header_value(s: Seq<char>) -> bool {
    forall|i: int| 0 <= i < s.len() ==> is_value_char(#[trigger] s[i])
}

/// The printable ASCII characters, the space and the tab.
pub open spec fn is_visible_char(c: char) -> bool {
    (' ' <= c && c <= '~') || c == '\t'
}

/// A header value that can be read as text: one of visible characters only.
pub open spec fn is_visible(s: Seq<char>) -> bool {
    forall|i: int| 0 <= i < s.len() ==> is_visible_char(#[trigger] s[i])
}

/// The characters that a stored header name may hold: lower-case letters,
/// digits and ``! " # $ % & ' * + - . ^ _ ` | ~``.
pub open spec fn is_name_char(c: char) -> bool {
    ||| 'a' <= c <= 'z'
    ||| '0' <= c <= '9'
    ||| c == '!'
    ||| c == '"'
    ||| c == '#'
    ||| c == '$'
    ||| c == '%'
    ||| c == '&'
    ||| c == '\''
    ||| c == '*'
    ||| c == '+'
    ||| c == '-'
    ||| c == '.'
    ||| c == '^'
    ||| c == '_'
    ||| c == '`'
    ||| c == '|'
    ||| c == '~'
}

/// The longest header name, in characters.
pub const MAX_NAME_LEN: usize = 65535;

/// A stored header name: between one and `MAX_NAME_LEN` name characters.
pub open spec fn is_header_name(s: Seq<char>) -> bool {
    &&& 0 < s.len() <= MAX_NAME_LEN
    &&& forall|i: int| 0 <= i < s.len() ==> is_name_char(#[trigger] s[i])
}

/// Headers as a header map holds them: valid names, none of them twice, and
/// valid values.
pub open spec fn valid_headers(pairs: Pairs) -> bool {
    &&& distinct(pairs)
    &&& forall|i: int|
        0 <= i < pairs.len() ==> is_header_name((#[trigger] pairs[i]).0) && is_header_value(
            pairs[i].1,
        )
}

/// Whether `s` can be stored as a header name.
pub fn header_name(s: &[char]) -> (r: bool)
    ensures
        r == is_header_name(s@),
{
    if s.len() == 0 || s.len() > MAX_NAME_LEN {
        return false;
    }
    let mut i: usize = 0;
    while i < s.len()
        invariant
            i <= s@.len(),
            forall|k: int| 0 <= k < i ==> is_name_char(#[trigger] s@[k]),
        decreases s@.len() - i,
    {
        let c = s[i];
        let ok = ('a' <= c && c <= 'z') || ('0' <= c && c <= '9') || c == '!' || c == '"' || c
            == '#' || c == '$' || c == '%' || c == '&' || c == '\'' || c == '*' || c == '+' || c
            == '-' || c == '.' || c == '^' || c == '_' || c == '`' || c == '|' || c == '~';
        if !ok {
            return false;
        }
        i += 1;
    }
    true
}

/// The value of one header.
#[derive(Debug, PartialEq, Eq)]
pub struct HeaderValue {
    text: String,
}

impl View for HeaderValue {
    type V = Seq<char>;

    closed spec fn view(&self) -> Seq<char> {
        self.text@
    }
}

impl HeaderValue {
    #[verifier::type_invariant]
    pub closed spec fn valid(&self) -> bool {
        is_header_value(self.text@)
    }

    /// The header value `text`, unless it holds a character that no header
    /// value may hold.
    pub fn from_str(text: &str) -> (r: Option<HeaderValue>)
        ensures
            r is Some <==> is_header_value(text@),
            r matches Some(value) ==> value@ == text@,
    {
        let chars = chars_of(text);
        let mut i: usize = 0;
        while i < chars.len()
            invariant
                i <= chars@.len(),
                chars@ == text@,
                forall|k: int| 0 <= k < i ==> is_value_char(#[trigger] chars@[k]),
            decreases chars@.len() - i,
        {
            let c = chars[i];
            if !((c >= ' ' && c != '\u{7f}') || c == '\t') {
                return None;
            }
            i += 1;
        }
        Some(HeaderValue { text: text.to_owned() })
    }

    /// The header value that writes `n` in decimal.
    pub fn from_usize(n: usize) -> (value: HeaderValue)
        ensures
            value@ == decimal(n as nat),
    {
        proof {
            lemma_decimal_is_visible(n as nat);
        }
        HeaderValue { text: decimal_string(n) }
    }

    /// The value as text, if all of it is visible.
    pub fn to_str(&self) -> (r: Option<&str>)
        ensures
            r is Some <==> is_visible(self@),
            r matches Some(text) ==> text@ == self@,
    {
        let chars = chars_of(self.text.as_str());
        let mut i: usize = 0;
        while i < chars.len()
            invariant
                i <= chars@.len(),
                chars@ == self@,
                forall|k: int| 0 <= k < i ==> is_visible_char(#[trigger] chars@[k]),
            decreases chars@.len() - i,
        {
            let c = chars[i];
            if !((' ' <= c && c <= '~') || c == '\t') {
                return None;
            }
            i += 1;
        }
        Some(self.text.as_str())
    }

    /// A header value is made of value characters.
    pub fn as_str(&self) -> (text: &str)
        ensures
            text@ == self@,
            is_header_value(self@),
    {
        proof {
            use_type_invariant(self);
        }
        self.text.as_str()
    }
}

impl Clone for HeaderValue {
    fn clone(&self) -> (copy: HeaderValue)
        ensures
            copy@ == self@,
    {
        proof {
            use_type_invariant(self);
        }
        HeaderValue { text: self.text.clone() }
    }
}

/// The decimal representation of a number is visible text.
pub proof fn lemma_decimal_is_visible(n: nat)
    ensures
        is_visible(decimal(n)),
        is_header_value(decimal(n)),
    decreases n,
{
    if n >= 10 {
        lemma_decimal_is_visible(n / 10);
    }
}

/// The headers of a message, in the order in which their names were first
/// inserted.
#[derive(Debug, PartialEq, Eq)]
pub struct HeaderMap {
    entries: Vec<(String, HeaderValue)>,
}

impl View for HeaderMap {
    type V = Pairs;

    closed spec fn view(&self) -> Pairs {
        Seq::new(self.entries@.len(), |i: int| (self.entries@[i].0@, self.entries@[i].1@))
    }
}

impl HeaderMap {
    #[verifier::type_invariant]
    pub closed spec fn valid(&self) -> bool {
        valid_headers(self@)
    }

    /// A map without headers.
    pub fn new() -> (map: HeaderMap)
        ensures
            map@ == Pairs::empty(),
    {
        let map = HeaderMap { entries: Vec::new() };
        assert(map@ =~= Pairs::empty());
        map
    }

    /// The number of headers; what the map holds is always valid.
    pub fn len(&self) -> (n: usize)
        ensures
            n == self@.len(),
            valid_headers(self@),
    {
        proof {
            use_type_invariant(self);
        }
        self.entries.len()
    }

    /// The name of the header at position `i`.
    pub fn name_at(&self, i: usize) -> (name: &str)
        requires
            i < self@.len(),
        ensures
            name@ == self@[i as int].0,
    {
        self.entries[i].0.as_str()
    }

    /// The value of the header at position `i`.
    pub fn value_at(&self, i: usize) -> (value: &HeaderValue)
        requires
            i < self@.len(),
        ensures
            value@ == self@[i as int].1,
    {
        &self.entries[i].1
    }

    fn find(&self, name: &[char]) -> (r: Option<usize>)
        ensures
            match r {
                Some(i) => i < self@.len() && i == index_of(self@, name@),
                None => index_of(self@, name@) == self@.len(),
            },
    {
        let mut i: usize = 0;
        while i < self.entries.len()
            invariant
                i <= self@.len(),
                self@.len() == self.entries@.len(),
                forall|k: int| 0 <= k < i ==> (#[trigger] self@[k]).0 != name@,
            decreases self@.len() - i,
        {
            let held = chars_of(self.entries[i].0.as_str());
            if same(held.as_slice(), name) {
                proof {
                    lemma_index_of_is(self@, name@, i as int);
                }
                return Some(i);
            }
            i += 1;
        }
        proof {
            lemma_index_of_is(self@, name@, i as int);
        }
        None
    }

    /// Looks a header up by name, without regard to the case of ASCII
    /// letters.
    pub fn get(&self, name: &str) -> (r: Option<&HeaderValue>)
        ensures
            match r {
                Some(value) => value_of(self@, ascii_lower(name@)) == Some(value@),
                None => value_of(self@, ascii_lower(name@)) is None,
            },
    {
        let chars = chars_of(name);
        let lower = to_ascii_lower(chars.as_slice());
        match self.find(lower.as_slice()) {
            Some(i) => Some(&self.entries[i].1),
            None => None,
        }
    }

    /// Sets the header `name` to `value`, in place of the value it had or as
    /// a new last header. A `name` that is no valid stored header name
    /// changes nothing, and the result is `false`.
    pub fn insert(&mut self, name: &str, value: HeaderValue) -> (inserted: bool)
        ensures
            inserted == is_header_name(name@),
            final(self)@ == if inserted {
                put(old(self)@, name@, value@)
            } else {
                old(self)@
            },
    {
        let chars = chars_of(name);
        if !header_name(chars.as_slice()) {
            return false;
        }
        proof {
            use_type_invariant(&*self);
            use_type_invariant(&value);
            lemma_put(self@, name@, value@);
        }
        let ghost before = self@;
        let found = self.find(chars.as_slice());
        let mut entries: Vec<(String, HeaderValue)> = Vec::new();
        std::mem::swap(&mut entries, &mut self.entries);
        match found {
            Some(i) => {
                entries.set(i, (name.to_owned(), value));
            },
            None => {
                entries.push((name.to_owned(), value));
            },
        }
        let ghost after = Seq::new(entries@.len(), |i: int| (entries@[i].0@, entries@[i].1@));
        assert(after =~= put(before, name@, value@));
        assert(valid_headers(after)) by {
            assert forall|k: int| 0 <= k < after.len() implies is_header_name(
                (#[trigger] after[k]).0,
            ) && is_header_value(after[k].1) by {
                if k < before.len() && k != index_of(before, name@) {
                    assert(after[k] == before[k]);
                }
            }
        }
        self.entries = entries;
        assert(self@ =~= after);
        true
    }
}

impl Clone for HeaderMap {
    fn clone(&self) -> (copy: HeaderMap)
        ensures
            copy@ == self@,
    {
        proof {
            use_type_invariant(self);
        }
        let mut entries: Vec<(String, HeaderValue)> = Vec::new();
        let mut i: usize = 0;
        while i < self.entries.len()
            invariant
                i <= self.entries@.len(),
                entries@.len() == i,
                forall|k: int|
                    0 <= k < i ==> (#[trigger] entries@[k]).0@ == self.entries@[k].0@
                        && entries@[k].1@ == self.entries@[k].1@,
            decreases self.entries@.len() - i,
        {
            entries.push((self.entries[i].0.clone(), self.entries[i].1.clone()));
            i += 1;
        }
        let ghost copied = Seq::new(entries@.len(), |i: int| (entries@[i].0@, entries@[i].1@));
        assert(copied =~= self@);
        HeaderMap { entries }
    }
}

} // verus!
