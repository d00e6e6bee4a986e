//! The closed set of object kinds and the words that name them in a header.

use vstd::prelude::*;

verus! {

/// What an object holds. `Tag` is recognised in a header, but no operation
/// beyond identification works on it.
#[derive(Debug, Clone, Copy, PartialEq, Eq, Structural)]
pub enum Kind {
    Blob,
    Tree,
    Commit,
    Tag,
}

impl Kind {
    /// The ASCII word that stands for this kind at the start of a header.
    pub open spec fn word(self) -> Seq<u8> {
        match self {
            Kind::Blob => seq![0x62u8, 0x6c, 0x6f, 0x62],
            Kind::Tree => seq![0x74u8, 0x72, 0x65, 0x65],
            Kind::Commit => seq![0x63u8, 0x6f, 0x6d, 0x6d, 0x69, 0x74],
            Kind::Tag => seq![0x74u8, 0x61, 0x67],
        }
    }

    /// The kind that `word` names, if it names one.
    pub open spec fn from_word_spec(word: Seq<u8>) -> Option<Kind> {
        if word == Kind::Blob.word() {
            Some(Kind::Blob)
        } else if word == Kind::Tree.word() {
            Some(Kind::Tree)
        } else if word == Kind::Commit.word() {
            Some(Kind::Commit)
        } else if word == Kind::Tag.word() {
            Some(Kind::Tag)
        } else {
            None
        }
    }

    /// The name as text: `blob`, `tree`, `commit` or `tag`.
    pub open spec fn name_spec(self) -> Seq<char> {
        match self {
            Kind::Blob => "blob"@,
            Kind::Tree => "tree"@,
            Kind::Commit => "commit"@,
            Kind::Tag => "tag"@,
        }
    }

    /// The name as text.
    pub fn name(&self) -> (text: &'static str)
        ensures
            text@ == self.name_spec(),
    {
        match self {
            Kind::Blob => "blob",
            Kind::Tree => "tree",
            Kind::Commit => "commit",
            Kind::Tag => "tag",
        }
    }

    /// The name as an owned string.
    pub fn to_string(&self) -> (text: String)
        ensures
            text@ == self.name_spec(),
    {
        String::from_str(self.name())
    }

    /// Appends the header word of this kind to `out`.
    pub fn write_word(&self, out: &mut Vec<u8>)
        ensures
            final(out)@ == old(out)@ + self.word(),
    {
        match self {
            Kind::Blob => {
                out.push(0x62);
                out.push(0x6c);
                out.push(0x6f);
                out.push(0x62);
            },
            Kind::Tree => {
                out.push(0x74);
                out.push(0x72);
                out.push(0x65);
                out.push(0x65);
            },
            Kind::Commit => {
                out.push(0x63);
                out.push(0x6f);
                out.push(0x6d);
                out.push(0x6d);
                out.push(0x69);
                out.push(0x74);
            },
            Kind::Tag => {
                out.push(0x74);
                out.push(0x61);
                out.push(0x67);
            },
        }
        assert(out@ =~= old(out)@ + self.word());
    }

    /// Recognises a header word. Any other byte string names no kind.
    pub fn from_word(word: &[u8]) -> (kind: Option<Kind>)
        ensures
            kind == Kind::from_word_spec(word@),
    {
        let n = word.len();
        if n == 4 && word[0] == 0x62 && word[1] == 0x6c && word[2] == 0x6f && word[3] == 0x62 {
            assert(word@ =~= Kind::Blob.word());
            Some(Kind::Blob)
        } else if n == 4 && word[0] == 0x74 && word[1] == 0x72 && word[2] == 0x65 && word[3]
            == 0x65 {
            assert(word@ =~= Kind::Tree.word());
            Some(Kind::Tree)
        } else if n == 6 && word[0] == 0x63 && word[1] == 0x6f && word[2] == 0x6d && word[3]
            == 0x6d && word[4] == 0x69 && word[5] == 0x74 {
            assert(word@ =~= Kind::Commit.word());
            Some(Kind::Commit)
        } else if n == 3 && word[0] == 0x74 && word[1] == 0x61 && word[2] == 0x67 {
            assert(word@ =~= Kind::Tag.word());
            Some(Kind::Tag)
        } else {
            assert(word@ != Kind::Blob.word()) by {
                if word@ == Kind::Blob.word() {
                    assert(Kind::Blob.word().len() == 4);
                    assert(Kind::Blob.word()[0] == 0x62 && Kind::Blob.word()[1] == 0x6c
                        && Kind::Blob.word()[2] == 0x6f && Kind::Blob.word()[3] == 0x62);
                }
            }
            assert(word@ != Kind::Tree.word()) by {
                if word@ == Kind::Tree.word() {
                    assert(Kind::Tree.word().len() == 4);
                    assert(Kind::Tree.word()[0] == 0x74 && Kind::Tree.word()[1] == 0x72
                        && Kind::Tree.word()[2] == 0x65 && Kind::Tree.word()[3] == 0x65);
                }
            }
            assert(word@ != Kind::Commit.word()) by {
                if word@ == Kind::Commit.word() {
                    assert(Kind::Commit.word().len() == 6);
                    assert(Kind::Commit.word()[0] == 0x63 && Kind::Commit.word()[1] == 0x6f
                        && Kind::Commit.word()[2] == 0x6d && Kind::Commit.word()[3] == 0x6d
                        && Kind::Commit.word()[4] == 0x69 && Kind::Commit.word()[5] == 0x74);
                }
            }
            assert(word@ != Kind::Tag.word()) by {
                if word@ == Kind::Tag.word() {
                    assert(Kind::Tag.word().len() == 3);
                    assert(Kind::Tag.word()[0] == 0x74 && Kind::Tag.word()[1] == 0x61
                        && Kind::Tag.word()[2] == 0x67);
                }
            }
            None
        }
    }
}

/// The header word of a kind is its name, byte for byte, and names that kind
/// and no other.
pub proof fn lemma_word_names_kind(kind: Kind)
    ensures
        Kind::from_word_spec(kind.word()) == Some(kind),
        kind.word().len() == kind.name_spec().len(),
        forall|i: int| 0 <= i < kind.word().len() ==> kind.word()[i] == kind.name_spec()[i] as u8,
        1 <= kind.word().len() <= 6,
        forall|i: int|
            0 <= i < kind.word().len() ==> 0x61 <= #[trigger] kind.word()[i] <= 0x7a,
{
    reveal_strlit("blob");
    reveal_strlit("tree");
    reveal_strlit("commit");
    reveal_strlit("tag");
    assert(Kind::Blob.word()[0] == 0x62);
    assert(Kind::Tree.word()[0] == 0x74);
    assert(Kind::Commit.word()[0] == 0x63);
    assert(Kind::Tag.word()[1] == 0x61);
    assert(Kind::Tree.word()[1] == 0x72);
    assert(Kind::Blob.word().len() == 4);
    assert(Kind::Tree.word().len() == 4);
    assert(Kind::Commit.word().len() == 6);
    assert(Kind::Tag.word().len() == 3);
}

} // verus!
