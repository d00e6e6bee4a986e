//! Commit objects: a tree, an optional parent, who made the commit and
//! when, and a message.
//!
//! ```text
//! tree <40 hex digits>\n
//! parent <40 hex digits>\n          (only if there is a parent)
//! author <name> <<email>> <seconds> <zone>\n
//! committer <name> <<email>> <seconds> <zone>\n
//! \n
//! <message>\n
//! ```

use vstd::prelude::*;
use vstd::string::StringSliceAdditionalSpecFns;
use vstd::utf8::encode_utf8;
use crate::bytes::append;
use crate::decimal::{decimal_text, write_decimal};
use crate::hex::hex_text;
use crate::object_id::ObjectId;

verus! {

/// Who made a commit, and when. The library lays these out; it does not
/// choose them.
#[derive(Debug, Clone, PartialEq, Eq)]
pub struct Identity {
    /// The person's name.
    pub name: String,
    /// The e-mail address, without the angle brackets around it.
    pub email: String,
    /// Seconds since the start of 1970, UTC.
    pub timestamp: u64,
    /// The offset from UTC as text, such as `+0000`.
    pub timezone: String,
}

impl Identity {
    /// `<name> <<email>> <seconds> <zone>`, as it stands behind `author` and
    /// `committer`.
    pub open spec fn signature(&self) -> Seq<u8> {
        encode_utf8(self.name@) + " <".spec_bytes() + encode_utf8(self.email@) + "> ".spec_bytes()
            + decimal_text(self.timestamp as nat) + " ".spec_bytes() + encode_utf8(self.timezone@)
    }

    /// Appends the signature to `out`.
    pub fn write_signature(&self, out: &mut Vec<u8>)
        ensures
            final(out)@ == old(out)@ + self.signature(),
    {
        append(out, self.name.as_str().as_bytes());
        append(out, " <".as_bytes());
        append(out, self.email.as_str().as_bytes());
        append(out, "> ".as_bytes());
        write_decimal(self.timestamp, out);
        append(out, " ".as_bytes());
        append(out, self.timezone.as_str().as_bytes());
        assert(out@ =~= old(out)@ + self.signature());
    }
}

/// The line that names the parent, or nothing if there is no parent.
pub open spec fn parent_line(parent: Option<Seq<u8>>) -> Seq<u8> {
    match parent {
        Some(id) => "parent ".spec_bytes() + hex_text(id) + "\n".spec_bytes(),
        None => Seq::<u8>::empty(),
    }
}

/// The payload of a commit.
pub open spec fn commit_payload(
    tree: Seq<u8>,
    parent: Option<Seq<u8>>,
    identity: Identity,
    message: Seq<u8>,
) -> Seq<u8> {
    "tree ".spec_bytes() + hex_text(tree) + "\n".spec_bytes() + parent_line(parent)
        + "author ".spec_bytes() + identity.signature() + "\n".spec_bytes()
        + "committer ".spec_bytes() + identity.signature() + "\n".spec_bytes() + "\n".spec_bytes()
        + message + "\n".spec_bytes()
}

/// The id behind an optional reference to one.
pub open spec fn id_view(id: Option<&ObjectId>) -> Option<Seq<u8>> {
    match id {
        Some(id) => Some(id@),
        None => None,
    }
}

/// Lays out commits made by one identity.
#[derive(Debug, Clone, PartialEq, Eq)]
pub struct CommitBuilder {
    pub identity: Identity,
}

impl CommitBuilder {
    /// A builder for commits by `identity`.
    pub fn new(identity: Identity) -> (builder: CommitBuilder)
        ensures
            builder.identity == identity,
    {
        CommitBuilder { identity }
    }

    /// The payload of the commit of `tree_id` with the given parent and
    /// message. The same identity stands as author and as committer.
    pub fn build(&self, tree_id: &ObjectId, parent_id: Option<&ObjectId>, message: &str) -> (out:
        Vec<u8>)
        ensures
            out@ == commit_payload(
                tree_id@,
                id_view(parent_id),
                self.identity,
                message.spec_bytes(),
            ),
    {
        let mut out: Vec<u8> = Vec::new();
        append(&mut out, "tree ".as_bytes());
        append(&mut out, tree_id.to_hex_bytes().as_slice());
        append(&mut out, "\n".as_bytes());
        let ghost head = out@;
        match parent_id {
            Some(parent) => {
                append(&mut out, "parent ".as_bytes());
                append(&mut out, parent.to_hex_bytes().as_slice());
                append(&mut out, "\n".as_bytes());
            },
            None => {},
        }
        assert(out@ =~= head + parent_line(id_view(parent_id)));
        append(&mut out, "author ".as_bytes());
        self.identity.write_signature(&mut out);
        append(&mut out, "\n".as_bytes());
        append(&mut out, "committer ".as_bytes());
        self.identity.write_signature(&mut out);
        append(&mut out, "\n".as_bytes());
        append(&mut out, "\n".as_bytes());
        append(&mut out, message.as_bytes());
        append(&mut out, "\n".as_bytes());
        assert(out@ =~= commit_payload(
            tree_id@,
            id_view(parent_id),
            self.identity,
            message.spec_bytes(),
        ));
        out
    }
}

} // verus!
