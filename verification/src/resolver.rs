//! Where a project's vault notes live on disk.

use vstd::prelude::*;

use crate::paths::{joined_path, push_path};
use crate::project::ObsidianLocationContent;
use crate::text::{chars_of, string_from_chars};

verus! {

pub struct ObsidianResolverConfig {
    /// Directory the .hexen.yml file lives in: `vault_root` resolves
    /// against it.
    pub project_dir: String,
    /// `content.vault_root` from the project's top-level content block.
    pub vault_root: String,
}

/// Finds a Location's note inside the project's vault.
pub struct ObsidianResolver {
    vault_dir: String,
}

/// `base.join(path)`, as text.
pub fn join(base: &str, path: &str) -> (res: String)
    ensures
        res@ == joined_path(base@, path@),
{
    let mut buf = chars_of(base);
    let p = chars_of(path);
    push_path(&mut buf, p.as_slice());
    string_from_chars(buf.as_slice())
}

impl ObsidianResolver {
    /// The vault's directory.
    pub closed spec fn vault(self) -> Seq<char> {
        self.vault_dir@
    }

    /// The vault at `vault_root` inside `project_dir`.
    pub fn new(config: ObsidianResolverConfig) -> (r: Self)
        ensures
            r.vault() == joined_path(config.project_dir@, config.vault_root@),
    {
        ObsidianResolver { vault_dir: join(config.project_dir.as_str(), config.vault_root.as_str()) }
    }

    /// The vault's directory.
    pub fn vault_dir(&self) -> (res: &str)
        ensures
            res@ == self.vault(),
    {
        self.vault_dir.as_str()
    }

    /// The file that holds the note `content` refers to.
    pub fn note_path(&self, content: &ObsidianLocationContent) -> (res: String)
        ensures
            res@ == joined_path(self.vault(), content.reference@),
    {
        join(self.vault_dir.as_str(), content.reference.as_str())
    }
}

} // verus!
