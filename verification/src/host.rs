//! Where a document's annotations, reading position and bookmarks are kept.

use vstd::prelude::*;

use crate::cli::{opt_view, OverrideRequestView};
use crate::path::join_path;
use crate::text::concat_str;

verus! {

/// How to route a document's annotations and reading position when Pereplyot was launched
/// on another application's behalf. Bookmarks always stay in the local store, keyed by the
/// document's content hash `hash`.
pub enum HostOverride {
    /// The vault note `key` of the vault at `root`.
    Vault { root: String, key: String, hash: String },
    /// Exactly these files; without a progress file, the reading position is not kept.
    ExternalPaths { annotations: String, progress: Option<String>, hash: String },
}

/// The abstract value of a [`HostOverride`].
pub enum HostOverrideView {
    Vault { root: Seq<char>, key: Seq<char>, hash: Seq<char> },
    ExternalPaths { annotations: Seq<char>, progress: Option<Seq<char>>, hash: Seq<char> },
}

impl HostOverride {
    pub open spec fn view(&self) -> HostOverrideView {
        match self {
            HostOverride::Vault { root, key, hash } => HostOverrideView::Vault {
                root: root@,
                key: key@,
                hash: hash@,
            },
            HostOverride::ExternalPaths { annotations, progress, hash } => HostOverrideView::ExternalPaths {
                annotations: annotations@,
                progress: opt_view(*progress),
                hash: hash@,
            },
        }
    }

    /// The content hash bookmarks are kept under.
    pub fn hash(&self) -> (h: &str)
        ensures
            h@ == match self.view() {
                HostOverrideView::Vault { hash, .. } => hash,
                HostOverrideView::ExternalPaths { hash, .. } => hash,
            },
    {
        match self {
            HostOverride::Vault { hash, .. } => hash.as_str(),
            HostOverride::ExternalPaths { hash, .. } => hash.as_str(),
        }
    }
}

/// The override a command-line request becomes once the document's content hash is known.
pub open spec fn override_view(r: OverrideRequestView, hash: Seq<char>) -> HostOverrideView {
    match r {
        OverrideRequestView::Vault { root, key } => HostOverrideView::Vault { root, key, hash },
        OverrideRequestView::ExternalPaths { annotations, progress } => HostOverrideView::ExternalPaths {
            annotations,
            progress,
            hash,
        },
    }
}

/// Law: resolving a request keeps every path it names, and only adds the content hash: a
/// vault request keeps its root and key, an explicit-paths request keeps its annotations file
/// and its progress file (or the lack of one).
pub proof fn law_override_keeps_request_paths(r: OverrideRequestView, hash: Seq<char>)
    ensures
        r is Vault ==> override_view(r, hash) == (HostOverrideView::Vault {
            root: r->Vault_root,
            key: r->Vault_key,
            hash,
        }),
        r is ExternalPaths ==> override_view(r, hash) == (HostOverrideView::ExternalPaths {
            annotations: r->ExternalPaths_annotations,
            progress: r->ExternalPaths_progress,
            hash,
        }),
{
}

/// `name.json`.
pub open spec fn json_file(name: Seq<char>) -> Seq<char> {
    name + ".json"@
}

/// The file holding a document's reading position, page-numbering override and bookmarks
/// in the local store under `data_dir`: `meta/<hash>.json`.
pub fn meta_path(data_dir: &str, hash: &str) -> (p: String)
    ensures
        p@ == crate::path::joined(crate::path::joined(data_dir@, "meta"@), json_file(hash@)),
{
    let dir = join_path(data_dir, "meta");
    let name = concat_str(hash, ".json");
    join_path(dir.as_str(), name.as_str())
}

/// The file holding a document's annotations in the local store under `data_dir`:
/// `annotations/<hash>.json`.
pub fn annotations_path(data_dir: &str, hash: &str) -> (p: String)
    ensures
        p@ == crate::path::joined(crate::path::joined(data_dir@, "annotations"@), json_file(hash@)),
{
    let dir = join_path(data_dir, "annotations");
    let name = concat_str(hash, ".json");
    join_path(dir.as_str(), name.as_str())
}

} // verus!
