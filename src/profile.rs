use crate::id::EventId;
use crate::outside::{metadata_of, parse_metadata};
use crate::tag::opt_text;
use vstd::prelude::*;

verus! {

/// The profile fields an author publishes about themself.
#[derive(Debug, Default)]
pub struct ProfileMetadata {
    pub name: Option<String>,
    pub display_name: Option<String>,
    pub picture: Option<String>,
}

/// A profile as far as it is known: still being fetched, or at hand.
#[derive(Debug)]
pub enum ProfileOption {
    Waiting,
    Loaded(ProfileMetadata),
}

impl ProfileOption {
    pub fn default() -> (r: ProfileOption)
        ensures
            r is Waiting,
    {
        ProfileOption::Waiting
    }
}

/// The fields of a profile as text.
pub struct MetadataModel {
    pub name: Option<Seq<char>>,
    pub display_name: Option<Seq<char>>,
    pub picture: Option<Seq<char>>,
}

impl View for ProfileMetadata {
    type V = MetadataModel;

    open spec fn view(&self) -> MetadataModel {
        MetadataModel {
            name: opt_text(self.name),
            display_name: opt_text(self.display_name),
            picture: opt_text(self.picture),
        }
    }
}

/// The stored profile of one author, from the record dated `created_at`.
#[derive(Debug)]
pub struct ProfileEntry {
    pub pubkey: [u8; 32],
    pub created_at: u64,
    pub metadata: ProfileMetadata,
}

/// A stored profile as mathematical values.
pub struct ProfileModel {
    pub pubkey: Seq<u8>,
    pub created_at: u64,
    pub metadata: MetadataModel,
}

impl View for ProfileEntry {
    type V = ProfileModel;

    open spec fn view(&self) -> ProfileModel {
        ProfileModel { pubkey: self.pubkey@, created_at: self.created_at, metadata: self.metadata@ }
    }
}

/// The latest known profile of each author.
pub struct ProfileStore {
    entries: Vec<ProfileEntry>,
}

/// No author has two profiles.
pub open spec fn authors_unique(p: Seq<ProfileModel>) -> bool {
    forall|i: int, j: int| 0 <= i < j < p.len() ==> p[i].pubkey != p[j].pubkey
}

/// The profiles after offering `new`: it replaces the author's profile only
/// where strictly newer, and is added where the author has none.
pub open spec fn upsert_model(p: Seq<ProfileModel>, new: ProfileModel) -> Seq<ProfileModel> {
    if exists|i: int| 0 <= i < p.len() && #[trigger] p[i].pubkey == new.pubkey {
        let i = choose|i: int| 0 <= i < p.len() && #[trigger] p[i].pubkey == new.pubkey;
        if new.created_at > p[i].created_at {
            p.update(i, new)
        } else {
            p
        }
    } else {
        p.push(new)
    }
}

/// The profile that a metadata record's content gives, where it reads as one.
pub open spec fn profile_from(pubkey: Seq<u8>, created_at: u64, content: Seq<char>) -> Option<ProfileModel> {
    match metadata_of(content) {
        Some((n, d, p)) => Some(
            ProfileModel {
                pubkey,
                created_at,
                metadata: MetadataModel { name: n, display_name: d, picture: p },
            },
        ),
        None => None,
    }
}

impl ProfileStore {
    pub closed spec fn view(&self) -> Seq<ProfileModel> {
        self.entries@.map_values(|e: ProfileEntry| e@)
    }

    pub closed spec fn wf(&self) -> bool {
        authors_unique(self.view())
    }

    pub fn new() -> (r: ProfileStore)
        ensures
            r.wf(),
            r.view().len() == 0,
    {
        let r = ProfileStore { entries: Vec::new() };
        assert(r.view() =~= Seq::<ProfileModel>::empty());
        r
    }

    /// The stored profile of an author.
    pub fn get(&self, pubkey: &[u8; 32]) -> (r: Option<&ProfileEntry>)
        ensures
            match r {
                Some(e) => e@.pubkey == pubkey@ && exists|i: int| 0 <= i < self.view().len() && self.view()[i] == e@,
                None => forall|i: int| 0 <= i < self.view().len() ==> self.view()[i].pubkey != pubkey@,
            },
    {
        match self.position(pubkey) {
            Some(i) => {
                assert(self.view()[i as int] == self.entries@[i as int]@);
                Some(&self.entries[i])
            },
            None => None,
        }
    }

    fn position(&self, pubkey: &[u8; 32]) -> (r: Option<usize>)
        ensures
            match r {
                Some(i) => i < self.view().len() && self.view()[i as int].pubkey == pubkey@,
                None => forall|i: int| 0 <= i < self.view().len() ==> self.view()[i].pubkey != pubkey@,
            },
    {
        let target = EventId::from_bytes(*pubkey);
        let mut i: usize = 0;
        while i < self.entries.len()
            invariant
                i <= self.entries@.len(),
                target@ == pubkey@,
                forall|j: int| 0 <= j < i ==> self.view()[j].pubkey != pubkey@,
            decreases self.entries@.len() - i,
        {
            if EventId::from_bytes(self.entries[i].pubkey).same(&target) {
                return Some(i);
            }
            i = i + 1;
        }
        None
    }

    /// Stores `entry` where its author has no profile or an older one; true where stored.
    pub fn upsert(&mut self, entry: ProfileEntry) -> (r: bool)
        requires
            old(self).wf(),
        ensures
            final(self).wf(),
            final(self).view() == upsert_model(old(self).view(), entry@),
    {
        let ghost p = self.view();
        match self.position(&entry.pubkey) {
            Some(i) => {
                proof {
                    let c = choose|c: int| 0 <= c < p.len() && #[trigger] p[c].pubkey == entry@.pubkey;
                    assert(c == i as int);
                }
                if entry.created_at > self.entries[i].created_at {
                    let ghost e = entry@;
                    self.entries.set(i, entry);
                    proof {
                        assert(self.view() =~= p.update(i as int, e));
                        assert forall|a: int, b: int| 0 <= a < b < self.view().len() implies self.view()[a].pubkey
                            != self.view()[b].pubkey by {
                            assert(p[a].pubkey != p[b].pubkey);
                        }
                    }
                    true
                } else {
                    false
                }
            },
            None => {
                let ghost e = entry@;
                self.entries.push(entry);
                proof {
                    assert(self.view() =~= p.push(e));
                }
                true
            },
        }
    }

    /// Reads a metadata record's content and offers it as the author's profile.
    pub fn update_from_record(&mut self, pubkey: [u8; 32], created_at: u64, content: &str) -> (r: bool)
        requires
            old(self).wf(),
        ensures
            final(self).wf(),
            match profile_from(pubkey@, created_at, content@) {
                Some(m) => final(self).view() == upsert_model(old(self).view(), m),
                None => final(self).view() == old(self).view() && !r,
            },
    {
        match parse_metadata(content) {
            Some((name, display_name, picture)) => {
                let entry = ProfileEntry {
                    pubkey,
                    created_at,
                    metadata: ProfileMetadata { name, display_name, picture },
                };
                self.upsert(entry)
            },
            None => false,
        }
    }
}

} // verus!
