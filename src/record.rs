use crate::id::{hex_ascii, push_hex, EventId};
use crate::kind::EventKind;
use crate::outside::{json_string_bytes, json_text, sha256_digest, sha256_of};
use crate::tag::{copy_string, Tag};
use vstd::prelude::*;

verus! {

/// What a record holds, as mathematical values.
pub struct RecordModel {
    pub id: Seq<u8>,
    pub pubkey: Seq<u8>,
    pub created_at: u64,
    pub kind: u16,
    pub tags: Seq<Seq<Seq<char>>>,
    pub content: Seq<char>,
    pub sig: Option<Seq<u8>>,
}

/// A signed (or, inside an envelope, unsigned) content-addressed record.
#[derive(Debug)]
pub struct Record {
    pub id: EventId,
    pub pubkey: [u8; 32],
    pub created_at: u64,
    pub kind: u16,
    pub tags: Vec<Tag>,
    pub content: String,
    pub sig: Option<Vec<u8>>,
}

pub open spec fn tags_view(tags: Seq<Tag>) -> Seq<Seq<Seq<char>>> {
    tags.map_values(|t: Tag| t@)
}

impl View for Record {
    type V = RecordModel;

    open spec fn view(&self) -> RecordModel {
        RecordModel {
            id: self.id@,
            pubkey: self.pubkey@,
            created_at: self.created_at,
            kind: self.kind,
            tags: tags_view(self.tags@),
            content: self.content@,
            sig: match self.sig {
                Some(s) => Some(s@),
                None => None,
            },
        }
    }
}

/// ASCII codes of the decimal digits of a number.
pub open spec fn decimal(n: nat) -> Seq<u8>
    decreases n,
{
    if n < 10 {
        seq![(48 + n) as u8]
    } else {
        decimal(n / 10).push((48 + n % 10) as u8)
    }
}

/// Items joined by commas.
pub open spec fn joined(items: Seq<Seq<u8>>) -> Seq<u8>
    decreases items.len(),
{
    if items.len() == 0 {
        Seq::empty()
    } else if items.len() == 1 {
        items[0]
    } else {
        joined(items.drop_last()).push(44u8).add(items.last())
    }
}

/// A JSON array of already encoded items.
pub open spec fn json_array(items: Seq<Seq<u8>>) -> Seq<u8> {
    seq![91u8].add(joined(items)).push(93u8)
}

/// A tag as a JSON array of strings.
pub open spec fn tag_json(t: Seq<Seq<char>>) -> Seq<u8> {
    json_array(t.map_values(|s: Seq<char>| json_text(s)))
}

/// The tag list as a JSON array of arrays.
pub open spec fn tags_json(tags: Seq<Seq<Seq<char>>>) -> Seq<u8> {
    json_array(tags.map_values(|t: Seq<Seq<char>>| tag_json(t)))
}

/// The canonical text that a record's id is the digest of:
/// `[0,"<author hex>",<created_at>,<kind>,<tags>,"<content>"]`.
pub open spec fn canonical_encoding(r: RecordModel) -> Seq<u8> {
    seq![91u8, 48u8, 44u8, 34u8].add(hex_ascii(r.pubkey)).add(seq![34u8, 44u8]).add(
        decimal(r.created_at as nat),
    ).push(44u8).add(decimal(r.kind as nat)).push(44u8).add(tags_json(r.tags)).push(44u8).add(
        json_text(r.content),
    ).push(93u8)
}

/// The content address of a record: the digest of its canonical encoding.
pub open spec fn content_address(r: RecordModel) -> Seq<u8> {
    sha256_of(canonical_encoding(r))
}

/// Appends the decimal digits of `n`.
pub fn push_decimal(out: &mut Vec<u8>, n: u64)
    ensures
        final(out)@ == old(out)@.add(decimal(n as nat)),
    decreases n,
{
    if n >= 10 {
        push_decimal(out, n / 10);
    }
    let d: u8 = (n % 10) as u8;
    out.push(48 + d);
    proof {
        if n < 10 {
            assert(old(out)@.add(decimal(n as nat)) =~= old(out)@.push((48 + d) as u8));
        } else {
            assert(old(out)@.add(decimal(n as nat)) =~= old(out)@.add(decimal((n / 10) as nat)).push(
                (48 + d) as u8,
            ));
        }
    }
}

proof fn lemma_joined_step(items: Seq<Seq<u8>>, i: int)
    requires
        0 <= i < items.len(),
    ensures
        joined(items.subrange(0, i + 1)) == if i == 0 {
            items[0]
        } else {
            joined(items.subrange(0, i)).push(44u8).add(items[i])
        },
{
    assert(items.subrange(0, i + 1).drop_last() =~= items.subrange(0, i));
}

/// Appends a tag as a JSON array of strings.
pub fn push_tag_json(out: &mut Vec<u8>, t: &Tag)
    ensures
        final(out)@ == old(out)@.add(tag_json(t@)),
{
    let ghost items = t@.map_values(|s: Seq<char>| json_text(s));
    out.push(91u8);
    let mut i: usize = 0;
    while i < t.0.len()
        invariant
            i <= t.0@.len(),
            items.len() == t.0@.len(),
            items == t@.map_values(|s: Seq<char>| json_text(s)),
            out@ == old(out)@.push(91u8).add(joined(items.subrange(0, i as int))),
        decreases t.0@.len() - i,
    {
        let ghost before = out@;
        if i > 0 {
            out.push(44u8);
        }
        let mut bytes = json_string_bytes(t.0[i].as_str());
        out.append(&mut bytes);
        proof {
            lemma_joined_step(items, i as int);
            assert(items[i as int] == json_text(t.0@[i as int]@));
            if i == 0 {
                assert(items.subrange(0, 0) =~= Seq::<Seq<u8>>::empty());
            }
            assert(out@ =~= old(out)@.push(91u8).add(joined(items.subrange(0, i + 1))));
        }
        i = i + 1;
    }
    out.push(93u8);
    assert(items.subrange(0, items.len() as int) =~= items);
    assert(out@ =~= old(out)@.add(tag_json(t@)));
}

/// Appends the tag list as a JSON array of arrays.
pub fn push_tags_json(out: &mut Vec<u8>, tags: &Vec<Tag>)
    ensures
        final(out)@ == old(out)@.add(tags_json(tags_view(tags@))),
{
    let ghost items = tags_view(tags@).map_values(|t: Seq<Seq<char>>| tag_json(t));
    out.push(91u8);
    let mut i: usize = 0;
    while i < tags.len()
        invariant
            i <= tags@.len(),
            items.len() == tags@.len(),
            items == tags_view(tags@).map_values(|t: Seq<Seq<char>>| tag_json(t)),
            out@ == old(out)@.push(91u8).add(joined(items.subrange(0, i as int))),
        decreases tags@.len() - i,
    {
        if i > 0 {
            out.push(44u8);
        }
        push_tag_json(out, &tags[i]);
        proof {
            lemma_joined_step(items, i as int);
            assert(items[i as int] == tag_json(tags@[i as int]@));
            if i == 0 {
                assert(items.subrange(0, 0) =~= Seq::<Seq<u8>>::empty());
            }
            assert(out@ =~= old(out)@.push(91u8).add(joined(items.subrange(0, i + 1))));
        }
        i = i + 1;
    }
    out.push(93u8);
    assert(items.subrange(0, items.len() as int) =~= items);
    assert(out@ =~= old(out)@.add(tags_json(tags_view(tags@))));
}

/// The canonical encoding of the author, time, kind, tags and content.
pub fn canonical_bytes(pubkey: &[u8; 32], created_at: u64, kind: u16, tags: &Vec<Tag>, content: &String) -> (r: Vec<u8>)
    ensures
        forall|m: RecordModel|
            m.pubkey == pubkey@ && m.created_at == created_at && m.kind == kind && m.tags
                == tags_view(tags@) && m.content == content@ ==> #[trigger] canonical_encoding(m) == r@,
{
    let mut out: Vec<u8> = Vec::new();
    out.push(91u8);
    out.push(48u8);
    out.push(44u8);
    out.push(34u8);
    push_hex(&mut out, pubkey.as_slice());
    out.push(34u8);
    out.push(44u8);
    push_decimal(&mut out, created_at);
    out.push(44u8);
    push_decimal(&mut out, kind as u64);
    out.push(44u8);
    push_tags_json(&mut out, tags);
    out.push(44u8);
    let mut c = json_string_bytes(content.as_str());
    out.append(&mut c);
    out.push(93u8);
    proof {
        assert forall|m: RecordModel|
            m.pubkey == pubkey@ && m.created_at == created_at && m.kind == kind && m.tags
                == tags_view(tags@) && m.content == content@ implies #[trigger] canonical_encoding(m) == out@ by {
            assert(canonical_encoding(m) =~= out@);
        }
    }
    out
}

impl Record {
    /// The content address that this record's fields (all but id and signature) determine.
    pub fn compute_id(&self) -> (r: EventId)
        ensures
            r@ == content_address(self@),
    {
        let bytes = canonical_bytes(&self.pubkey, self.created_at, self.kind, &self.tags, &self.content);
        proof {
            assert(canonical_encoding(self@) == bytes@);
        }
        EventId::from_bytes(sha256_digest(bytes.as_slice()))
    }

    /// A copy with the same fields.
    pub fn duplicate(&self) -> (r: Record)
        ensures
            r@ == self@,
    {
        let mut tags: Vec<Tag> = Vec::new();
        let mut i: usize = 0;
        while i < self.tags.len()
            invariant
                i <= self.tags@.len(),
                tags@.len() == i,
                forall|j: int| 0 <= j < i ==> tags@[j]@ == self.tags@[j]@,
            decreases self.tags@.len() - i,
        {
            tags.push(self.tags[i].duplicate());
            i = i + 1;
        }
        let sig = match &self.sig {
            Some(s) => {
                let mut v: Vec<u8> = Vec::new();
                let mut k: usize = 0;
                while k < s.len()
                    invariant
                        k <= s@.len(),
                        v@ == s@.subrange(0, k as int),
                    decreases s@.len() - k,
                {
                    v.push(s[k]);
                    k = k + 1;
                    assert(v@ =~= s@.subrange(0, k as int));
                }
                assert(v@ =~= s@);
                Some(v)
            },
            None => None,
        };
        let r = Record {
            id: self.id,
            pubkey: self.pubkey,
            created_at: self.created_at,
            kind: self.kind,
            tags,
            content: copy_string(&self.content),
            sig,
        };
        assert(tags_view(r.tags@) =~= tags_view(self.tags@));
        r
    }
}

/// Why a record could not be built.
#[derive(Debug, PartialEq, Eq, Structural, Clone, Copy)]
pub enum EventBuilderError {
    MissingFields,
}

/// Collects the fields of a new record.
#[derive(Debug, Default)]
pub struct EventBuilder {
    pub created_at: Option<u64>,
    pub kind: Option<EventKind>,
    pub tags: Vec<Tag>,
    pub content: String,
}

impl EventBuilder {
    pub fn new() -> (r: EventBuilder)
        ensures
            r.created_at is None,
            r.kind is None,
            r.tags@.len() == 0,
            r.content@ == Seq::<char>::empty(),
    {
        EventBuilder { created_at: None, kind: None, tags: Vec::new(), content: String::new() }
    }

    pub fn kind(self, kind: EventKind) -> (r: EventBuilder)
        ensures
            r.kind == Some(kind),
            r.created_at == self.created_at,
            r.tags@ == self.tags@,
            r.content@ == self.content@,
    {
        EventBuilder { kind: Some(kind), ..self }
    }

    pub fn created_at(self, created_at: u64) -> (r: EventBuilder)
        ensures
            r.created_at == Some(created_at),
            r.kind == self.kind,
            r.tags@ == self.tags@,
            r.content@ == self.content@,
    {
        EventBuilder { created_at: Some(created_at), ..self }
    }

    pub fn tag(self, tag: Tag) -> (r: EventBuilder)
        ensures
            r.tags@ == self.tags@.push(tag),
            r.created_at == self.created_at,
            r.kind == self.kind,
            r.content@ == self.content@,
    {
        let mut s = self;
        s.tags.push(tag);
        s
    }

    /// Appends the given tags, in order.
    pub fn tags(self, tags: Vec<Tag>) -> (r: EventBuilder)
        ensures
            r.tags@ == self.tags@.add(tags@),
            r.created_at == self.created_at,
            r.kind == self.kind,
            r.content@ == self.content@,
    {
        let mut s = self;
        let mut more = tags;
        s.tags.append(&mut more);
        s
    }

    pub fn content(self, content: &str) -> (r: EventBuilder)
        ensures
            r.content@ == content@,
            r.created_at == self.created_at,
            r.kind == self.kind,
            r.tags@ == self.tags@,
    {
        EventBuilder { content: content.to_owned(), ..self }
    }

    /// An unsigned record by `author` with the collected fields and its computed id;
    /// fails where the time or the kind is missing.
    pub fn build(&self, author: [u8; 32]) -> (r: Result<Record, EventBuilderError>)
        ensures
            (self.created_at is None || self.kind is None) <==> r is Err,
            r is Ok ==> ({
                let m = r.unwrap()@;
                &&& m.pubkey == author@
                &&& m.created_at == self.created_at.unwrap()
                &&& m.kind == crate::kind::number_of(self.kind.unwrap())
                &&& m.tags == tags_view(self.tags@)
                &&& m.content == self.content@
                &&& m.sig is None
                &&& m.id == content_address(m)
            }),
    {
        match (self.created_at, self.kind) {
            (Some(t), Some(k)) => {
                let mut tags: Vec<Tag> = Vec::new();
                let mut i: usize = 0;
                while i < self.tags.len()
                    invariant
                        i <= self.tags@.len(),
                        tags@.len() == i,
                        forall|j: int| 0 <= j < i ==> tags@[j]@ == self.tags@[j]@,
                    decreases self.tags@.len() - i,
                {
                    tags.push(self.tags[i].duplicate());
                    i = i + 1;
                }
                let mut rec = Record {
                    id: EventId::from_bytes([0u8; 32]),
                    pubkey: author,
                    created_at: t,
                    kind: k.as_u16(),
                    tags,
                    content: copy_string(&self.content),
                    sig: None,
                };
                assert(tags_view(rec.tags@) =~= tags_view(self.tags@));
                rec.id = rec.compute_id();
                Ok(rec)
            },
            _ => Err(EventBuilderError::MissingFields),
        }
    }
}

} // verus!
