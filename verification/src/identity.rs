//! Identity of a holon, as its HOLON.md file declares it in a YAML
//! front-matter block.

use vstd::prelude::*;

use crate::text::{find, find_spec, starts_with, trim, trim_spec};

verus! {

/// Parsed identity from a HOLON.md file. Every field that the file does
/// not set is empty.
#[derive(Debug, Clone)]
pub struct HolonIdentity {
    pub uuid: String,
    pub given_name: String,
    pub family_name: String,
    pub motto: String,
    pub composer: String,
    pub clade: String,
    pub status: String,
    pub born: String,
    pub lang: String,
    pub parents: Vec<String>,
    pub reproduction: String,
    pub generated_by: String,
    pub proto_status: String,
    pub aliases: Vec<String>,
}

impl HolonIdentity {
    /// Every field of the identity is empty.
    pub open spec fn is_empty(&self) -> bool {
        &&& self.uuid@.len() == 0
        &&& self.given_name@.len() == 0
        &&& self.family_name@.len() == 0
        &&& self.motto@.len() == 0
        &&& self.composer@.len() == 0
        &&& self.clade@.len() == 0
        &&& self.status@.len() == 0
        &&& self.born@.len() == 0
        &&& self.lang@.len() == 0
        &&& self.parents@.len() == 0
        &&& self.reproduction@.len() == 0
        &&& self.generated_by@.len() == 0
        &&& self.proto_status@.len() == 0
        &&& self.aliases@.len() == 0
    }
}

impl Default for HolonIdentity {
    fn default() -> (r: Self)
        ensures
            r.is_empty(),
    {
        HolonIdentity {
            uuid: String::new(),
            given_name: String::new(),
            family_name: String::new(),
            motto: String::new(),
            composer: String::new(),
            clade: String::new(),
            status: String::new(),
            born: String::new(),
            lang: String::new(),
            parents: Vec::new(),
            reproduction: String::new(),
            generated_by: String::new(),
            proto_status: String::new(),
            aliases: Vec::new(),
        }
    }
}

/// Why a HOLON.md text holds no front-matter block.
#[derive(Debug, Clone, Copy, PartialEq, Eq, Structural)]
pub enum FrontmatterError {
    /// The text does not start with `---`.
    Missing,
    /// No `---` closes the block that the text opens.
    Unterminated,
}

/// The YAML front matter of a HOLON.md text: what lies between the opening
/// `---` at the very start and the next `---`, without surrounding
/// whitespace.
pub open spec fn frontmatter_spec(text: Seq<char>) -> Result<Seq<char>, FrontmatterError> {
    if !"---"@.is_prefix_of(text) {
        Err(FrontmatterError::Missing)
    } else {
        let body = text.skip(3);
        match find_spec(body, "---"@) {
            None => Err(FrontmatterError::Unterminated),
            Some(end) => Ok(trim_spec(body.take(end))),
        }
    }
}

/// Extract the YAML front matter of a HOLON.md text.
pub fn frontmatter(text: &str) -> (r: Result<&str, FrontmatterError>)
    ensures
        match r {
            Ok(fm) => frontmatter_spec(text@) == Ok::<Seq<char>, FrontmatterError>(fm@),
            Err(e) => frontmatter_spec(text@) == Err::<Seq<char>, FrontmatterError>(e),
        },
{
    let marker = "---";
    proof {
        reveal_strlit("---");
    }
    if !starts_with(text, marker) {
        return Err(FrontmatterError::Missing);
    }
    let n = text.unicode_len();
    let body = text.substring_char(3, n);
    assert(body@ =~= text@.skip(3));
    match find(body, marker) {
        None => Err(FrontmatterError::Unterminated),
        Some(end) => {
            proof {
                crate::text::lemma_find_spec(body@, marker@);
            }
            let block = body.substring_char(0, end);
            assert(block@ =~= body@.take(end as int));
            Ok(trim(block))
        },
    }
}

} // verus!
