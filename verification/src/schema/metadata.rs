//! The record an extraction writes beside its dumps.
//!
//! `build.json` exists so that nothing has to reopen the server image to learn
//! which build a directory of dumps came from. `schema list` and `schema diff`
//! read it, and the build watcher can read it without a Keen binary on hand.
//!
//! It is derived data under `.cache` like everything else here, so it is never
//! committed. It carries identifiers and timestamps only: no type, no string
//! and no program recovered from the binary. Reading and writing the file is
//! the binary's part; the record and what it says of itself live here.

use vstd::prelude::*;

use crate::text::{decimal, decimal_string, push_str};
use crate::ui::owned;

verus! {

/// The file name, beside the dumps.
pub const FILE: &'static str = "build.json";

/// What one extraction was taken from, and when.
#[derive(Debug, Clone)]
pub struct BuildRecord {
    /// The Steam buildid, which is also the directory name.
    pub build_id: String,
    /// The `CodeView` record, when the image carries one.
    pub fingerprint: Option<Fingerprint>,
    /// The revision the data pack states, when it could be read.
    pub revision: Option<Revision>,
    /// When the extraction ran, as RFC 3339 in UTC.
    pub extracted_at: String,
    /// The server executable that was read.
    pub server: String,
    /// The client executable that was read, when one was named.
    pub client: Option<String>,
}

/// The build fingerprint in both renderings that exist for it.
///
/// The two differ, and which one is right depends on who is asking. Recording
/// only one of them is how a lookup silently searches for a build that is not
/// there.
#[derive(Debug, Clone, PartialEq, Eq)]
pub struct Fingerprint {
    /// The sixteen signature bytes in the order the `CodeView` record stores
    /// them. A signature row matches on this one.
    pub guid_file_order: String,
    /// The same bytes as Microsoft renders a PDB GUID, with the first three
    /// fields byte swapped. A symbol server takes this one; strip the hyphens
    /// and upper-case it to build a `symsrv` path.
    pub guid_pdb: String,
    /// How many times the PDB was rebuilt for this signature.
    pub age: u32,
}

/// The revision the data pack beside the executable states.
#[derive(Debug, Clone, PartialEq, Eq)]
pub struct Revision {
    /// The Subversion revision number of the game content tree.
    pub number: u32,
    /// The caret path naming the branch the content came from.
    pub branch: String,
    /// The timestamp the pack was built, as the header writes it.
    pub stamp: String,
}

/// The heading line a record gives: the buildid, then the revision or that
/// it is unknown, then when the extraction ran.
pub open spec fn summary_text(build_id: Seq<char>, revision: Option<u32>, extracted_at: Seq<char>) -> Seq<char> {
    build_id + " ("@ + match revision {
        Some(n) => "r"@ + decimal(n as nat),
        None => "revision unknown"@,
    } + ", extracted "@ + extracted_at + ")"@
}

impl BuildRecord {
    /// One line naming the build, for a command that prints a heading.
    pub fn summary(&self) -> (r: String)
        ensures
            r@ == summary_text(
                self.build_id@,
                match self.revision {
                    Some(rev) => Some(rev.number),
                    None => None,
                },
                self.extracted_at@,
            ),
    {
        let revision = match &self.revision {
            Some(r) => {
                let mut t = owned("r");
                push_str(&mut t, decimal_string(r.number as u64).as_str());
                t
            },
            None => owned("revision unknown"),
        };
        let mut out = owned(self.build_id.as_str());
        push_str(&mut out, " (");
        push_str(&mut out, revision.as_str());
        push_str(&mut out, ", extracted ");
        push_str(&mut out, self.extracted_at.as_str());
        push_str(&mut out, ")");
        out
    }
}

impl Fingerprint {
    /// Both renderings of an image's `CodeView` record.
    pub fn of(print: &crate::image::Fingerprint) -> (r: Self)
        ensures
            r.guid_file_order@ == crate::text::hex_bytes(print.guid@),
            r.guid_pdb@ == crate::image::pdb_guid_text(print.guid@),
            r.age == print.age,
    {
        Fingerprint { guid_file_order: print.guid_file_order(), guid_pdb: print.pdb_guid(), age: print.age }
    }
}

impl Revision {
    /// The revision a data pack's record states.
    pub fn of(record: &crate::kfc::Revision) -> (r: Self)
        ensures
            r.number == record.number,
            r.branch@ == record.branch@,
            r.stamp@ == record.stamp@,
    {
        Revision { number: record.number, branch: record.branch.clone(), stamp: record.stamp.clone() }
    }
}

} // verus!
