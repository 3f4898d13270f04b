use crate::outside::{char_text, lower_of, lowercase};
use crate::profile::ProfileMetadata;
use crate::tag::opt_text;
use vstd::prelude::*;
use vstd::string::StrSliceExecFns;

verus! {

/// Someone in the address book: a key, an optional local nickname and their profile.
#[derive(Debug)]
pub struct Contact {
    pub pubkey: String,
    pub petname: Option<String>,
    pub metadata: ProfileMetadata,
}

/// The name to show: the nickname, else the display name, else the name, else the key.
pub open spec fn best_name_of(c: Contact) -> Seq<char> {
    match opt_text(c.petname) {
        Some(p) => p,
        None => match opt_text(c.metadata.display_name) {
            Some(d) => d,
            None => match opt_text(c.metadata.name) {
                Some(n) => n,
                None => c.pubkey@,
            },
        },
    }
}

/// Unicode white space, as `char::is_whitespace` reads it.
pub open spec fn white_space(c: char) -> bool {
    ('\u{9}' <= c && c <= '\u{d}') || c == ' ' || c == '\u{85}' || c == '\u{a0}' || c == '\u{1680}'
        || ('\u{2000}' <= c && c <= '\u{200a}') || c == '\u{2028}' || c == '\u{2029}' || c == '\u{202f}'
        || c == '\u{205f}' || c == '\u{3000}'
}

/// ASCII lower-case letters raised to upper case; every other character kept.
pub open spec fn ascii_upper(c: char) -> char {
    if 'a' <= c && c <= 'z' {
        (((c as u32) - 32) as u8) as char
    } else {
        c
    }
}

/// The first characters of the white-space separated words of `s[..i]`, in order.
pub open spec fn word_starts(s: Seq<char>, i: int) -> Seq<char>
    decreases i,
{
    if i <= 0 {
        Seq::empty()
    } else {
        let rest = word_starts(s, i - 1);
        if !white_space(s[i - 1]) && (i - 1 == 0 || white_space(s[i - 2])) {
            rest.push(s[i - 1])
        } else {
            rest
        }
    }
}

/// Up to two initials: the upper-cased first letters of the first two words, or,
/// where there is no word, the upper-cased first two characters.
pub open spec fn initials_of(name: Seq<char>) -> Seq<char> {
    let w = word_starts(name, name.len() as int);
    let src = if w.len() > 0 {
        w
    } else {
        name
    };
    src.take(if src.len() < 2 { src.len() as int } else { 2 }).map_values(|c: char| ascii_upper(c))
}

pub fn is_white_space(c: char) -> (r: bool)
    ensures
        r == white_space(c),
{
    ('\u{9}' <= c && c <= '\u{d}') || c == ' ' || c == '\u{85}' || c == '\u{a0}' || c == '\u{1680}'
        || ('\u{2000}' <= c && c <= '\u{200a}') || c == '\u{2028}' || c == '\u{2029}' || c == '\u{202f}'
        || c == '\u{205f}' || c == '\u{3000}'
}

pub fn to_ascii_upper(c: char) -> (r: char)
    ensures
        r == ascii_upper(c),
{
    if 'a' <= c && c <= 'z' {
        (((c as u32) - 32) as u8) as char
    } else {
        c
    }
}

impl Contact {
    /// The name to show, borrowed from the contact.
    pub fn best_name(&self) -> (r: &str)
        ensures
            r@ == best_name_of(*self),
    {
        match &self.petname {
            Some(p) => p.as_str(),
            None => match &self.metadata.display_name {
                Some(d) => d.as_str(),
                None => match &self.metadata.name {
                    Some(n) => n.as_str(),
                    None => self.pubkey.as_str(),
                },
            },
        }
    }

    pub fn display_name(&self) -> (r: String)
        ensures
            r@ == best_name_of(*self),
    {
        self.best_name().to_owned()
    }

    /// Up to two upper-cased initials of the name to show.
    pub fn initials(&self) -> (r: String)
        ensures
            r@ == initials_of(best_name_of(*self)),
    {
        let name = self.best_name();
        let n = name.unicode_len();
        let ghost s = name@;
        let mut starts: Vec<char> = Vec::new();
        let mut i: usize = 0;
        while i < n
            invariant
                n == s.len(),
                s == name@,
                i <= n,
                starts@ == word_starts(s, i as int),
            decreases n - i,
        {
            let c = name.get_char(i);
            if !is_white_space(c) && (i == 0 || is_white_space(name.get_char(i - 1))) {
                starts.push(c);
            }
            i = i + 1;
        }
        let mut out = String::new();
        let mut k: usize = 0;
        let use_words = starts.len() > 0;
        let ghost src = if use_words { starts@ } else { s };
        let limit: usize = if use_words {
            if starts.len() < 2 { starts.len() } else { 2 }
        } else {
            if n < 2 { n } else { 2 }
        };
        proof {
            reveal_strlit("");
        }
        while k < limit
            invariant
                limit <= src.len(),
                src == (if use_words { starts@ } else { s }),
                s == name@,
                n == s.len(),
                k <= limit,
                out@ == src.take(k as int).map_values(|c: char| ascii_upper(c)),
            decreases limit - k,
        {
            let c = if use_words { starts[k] } else { name.get_char(k) };
            let piece = char_text(to_ascii_upper(c));
            out.append(piece.as_str());
            assert(src.take(k + 1).map_values(|c: char| ascii_upper(c)) =~= src.take(k as int).map_values(
                |c: char| ascii_upper(c),
            ).push(ascii_upper(src[k as int])));
            k = k + 1;
        }
        out
    }

    /// The profile picture's address, where it is set and not empty.
    pub fn picture_url(&self) -> (r: Option<&str>)
        ensures
            match r {
                Some(u) => opt_text(self.metadata.picture) == Some(u@) && u@.len() > 0,
                None => opt_text(self.metadata.picture) is None || opt_text(self.metadata.picture) == Some(
                    Seq::<char>::empty(),
                ),
            },
    {
        match &self.metadata.picture {
            Some(p) => {
                if p.as_str().unicode_len() == 0 {
                    assert(p@ =~= Seq::<char>::empty());
                    None
                } else {
                    Some(p.as_str())
                }
            },
            None => None,
        }
    }
}

/// The key contacts are ordered by: the name to show, in lower case.
pub fn contact_sort_key(contact: &Contact) -> (r: String)
    ensures
        r@ == lower_of(best_name_of(*contact)),
{
    lowercase(contact.best_name())
}

} // verus!
