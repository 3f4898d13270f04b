use crate::id::{hex_decode, EventId};
use vstd::prelude::*;

verus! {

/// One entry of a record's tag list: a tag name followed by its values.
#[derive(Debug, Default)]
pub struct Tag(pub Vec<String>);

/// The tag names this library gives a meaning to.
#[derive(Debug, PartialEq, Eq, Structural, Clone, Copy)]
pub enum TagKind {
    /// `t`: a free-form topic.
    Tag,
    /// `p`: a public key, the recipient of a message.
    Pubkey,
    /// `subject`: the subject line of a conversation.
    Subject,
    /// `e`: a reference to another record, a reply or a deletion target.
    Event,
}

impl View for Tag {
    type V = Seq<Seq<char>>;

    open spec fn view(&self) -> Seq<Seq<char>> {
        self.0@.map_values(|s: String| s@)
    }
}

/// The name of a tag, its first entry.
pub open spec fn tag_name(t: Seq<Seq<char>>) -> Seq<char> {
    t[0]
}

/// The first value of a tag, its second entry.
pub open spec fn tag_value(t: Seq<Seq<char>>) -> Option<Seq<char>> {
    if t.len() >= 2 {
        Some(t[1])
    } else {
        None
    }
}

/// The id that an `e` tag refers to: its first value read as 64 hex digits.
pub open spec fn tag_ref(t: Seq<Seq<char>>) -> Option<Seq<u8>> {
    if t.len() >= 2 && t[0] == seq!['e'] {
        match hex_decode(t[1]) {
            Some(b) => if b.len() == 32 {
                Some(b)
            } else {
                None
            },
            None => None,
        }
    } else {
        None
    }
}

/// Whether a tag is a `subject` tag with a value.
pub open spec fn is_subject(t: Seq<Seq<char>>) -> bool {
    t.len() >= 2 && t[0] == seq!['s', 'u', 'b', 'j', 'e', 'c', 't']
}

/// The characters of an optional string.
pub open spec fn opt_text(o: Option<String>) -> Option<Seq<char>> {
    match o {
        Some(s) => Some(s@),
        None => None,
    }
}

/// Copies a string so that the copy has the same characters.
pub fn copy_string(s: &String) -> (r: String)
    ensures
        r@ == s@,
{
    s.clone()
}

impl Tag {
    pub fn new() -> (r: Tag)
        ensures
            r@ == Seq::<Seq<char>>::empty(),
    {
        let r = Tag::new_with_values(Vec::new());
        assert(r@ =~= Seq::<Seq<char>>::empty());
        r
    }

    pub fn new_with_values(values: Vec<String>) -> (r: Tag)
        ensures
            r.0@ == values@,
            r@ == values@.map_values(|s: String| s@),
    {
        Tag(values)
    }

    /// The tag's name; a tag without entries has none.
    pub fn kind(&self) -> (r: &str)
        requires
            self@.len() > 0,
        ensures
            r@ == tag_name(self@),
    {
        self.0[0].as_str()
    }

    /// The tag's first value, where it has one.
    pub fn content(&self) -> (r: Option<&str>)
        ensures
            match r {
                Some(v) => tag_value(self@) == Some(v@),
                None => tag_value(self@) is None,
            },
    {
        if self.0.len() >= 2 {
            Some(self.0[1].as_str())
        } else {
            None
        }
    }

    pub fn len(self) -> (r: usize)
        ensures
            r == self@.len(),
    {
        self.0.len()
    }

    /// Whether the tag's name is the given text.
    pub fn has_name(&self, name: &str) -> (r: bool)
        ensures
            r == (self@.len() > 0 && tag_name(self@) == name@),
    {
        if self.0.len() == 0 {
            return false;
        }
        str_eq(self.0[0].as_str(), name)
    }

    /// The id this tag refers to, where it is an `e` tag with a well-formed id.
    pub fn reference(&self) -> (r: Option<EventId>)
        ensures
            match r {
                Some(id) => tag_ref(self@) == Some(id@),
                None => tag_ref(self@) is None,
            },
    {
        if self.0.len() < 2 {
            return None;
        }
        let is_e = self.has_name("e");
        proof {
            reveal_strlit("e");
            assert("e"@ =~= seq!['e']);
        }
        if !is_e {
            return None;
        }
        EventId::from_hex(self.0[1].as_str())
    }

    /// Whether this is a `subject` tag with a value.
    pub fn is_subject(&self) -> (r: bool)
        ensures
            r == is_subject(self@),
    {
        if self.0.len() < 2 {
            return false;
        }
        let named = self.has_name("subject");
        proof {
            reveal_strlit("subject");
            assert("subject"@ =~= seq!['s', 'u', 'b', 'j', 'e', 'c', 't']);
        }
        named
    }

    /// A copy with the same entries.
    pub fn duplicate(&self) -> (r: Tag)
        ensures
            r@ == self@,
    {
        let mut out: Vec<String> = Vec::new();
        let mut i: usize = 0;
        while i < self.0.len()
            invariant
                i <= self.0@.len(),
                out@.len() == i,
                forall|j: int| 0 <= j < i ==> out@[j]@ == self.0@[j]@,
            decreases self.0@.len() - i,
        {
            out.push(copy_string(&self.0[i]));
            i = i + 1;
        }
        let r = Tag(out);
        assert(r@ =~= self@);
        r
    }
}

/// Character-wise equality of two strings.
pub fn str_eq(a: &str, b: &str) -> (r: bool)
    ensures
        r == (a@ == b@),
{
    let n = a.unicode_len();
    if n != b.unicode_len() {
        return false;
    }
    let mut i: usize = 0;
    while i < n
        invariant
            n == a@.len(),
            n == b@.len(),
            i <= n,
            forall|j: int| 0 <= j < i ==> a@[j] == b@[j],
        decreases n - i,
    {
        if a.get_char(i) != b.get_char(i) {
            return false;
        }
        i = i + 1;
    }
    assert(a@ =~= b@);
    true
}

} // verus!
