//! The package catalog: entries, their derived lowercase fields, profile
//! preselection and category listing.
use vstd::prelude::*;

use crate::batch::{Invocation, OperationItem};
use crate::profile::Profile;
use crate::table::InstalledPackage;
use crate::text::{lower_of, occurs_at, same_text, starts_with_bytes, texts, to_lowercase};

verus! {

/// Where the catalog in use came from.
#[derive(Debug, Clone, Copy, PartialEq, Eq, Structural)]
pub enum CatalogSource {
    Embedded,
    Cached,
    Remote,
}

impl CatalogSource {
    /// The annotation for the package count label; none for a cached
    /// catalog.
    pub fn label_suffix(self) -> (r: Option<&'static str>)
        ensures
            match self {
                CatalogSource::Embedded => r matches Some(s) && s@ == "built-in"@,
                CatalogSource::Cached => r is None,
                CatalogSource::Remote => r matches Some(s) && s@ == "updated"@,
            },
    {
        match self {
            CatalogSource::Embedded => Some("built-in"),
            CatalogSource::Cached => None,
            CatalogSource::Remote => Some("updated"),
        }
    }
}

/// A catalog entry.
#[derive(Debug, Clone)]
pub struct Package {
    pub id: String,
    pub name: String,
    pub description: String,
    pub category: String,
    pub winget_id: Option<String>,
    pub profiles: Vec<String>,
    pub post_install: Option<String>,
    pub install_command: Option<String>,
    /// `name`, lowercased, for search.
    pub name_lower: String,
    /// `description`, lowercased, for search.
    pub desc_lower: String,
    /// `winget_id`, lowercased, for installed-package lookups.
    pub winget_id_lower: Option<String>,
}

/// `start http`
pub open spec fn browser_prefix() -> Seq<u8> {
    seq![0x73u8, 0x74u8, 0x61u8, 0x72u8, 0x74u8, 0x20u8, 0x68u8, 0x74u8, 0x74u8, 0x70u8]
}

impl Package {
    /// Its custom command opens a web page instead of installing silently.
    pub open spec fn opens_browser(&self) -> bool {
        self.install_command matches Some(c) && occurs_at(vstd::utf8::encode_utf8(c@), browser_prefix(), 0)
    }

    pub fn is_browser_download(&self) -> (r: bool)
        ensures
            r == self.opens_browser(),
    {
        match &self.install_command {
            Some(c) => {
                let prefix: [u8; 10] = [0x73, 0x74, 0x61, 0x72, 0x74, 0x20, 0x68, 0x74, 0x74, 0x70];
                assert(prefix@ =~= browser_prefix());
                starts_with_bytes(c.as_str().as_bytes(), prefix.as_slice())
            },
            None => false,
        }
    }

    /// The operation that installs it: its custom command if it has one,
    /// else its package identifier.
    pub fn install_item(&self) -> (r: OperationItem)
        ensures
            r == install_operation(*self),
    {
        let invocation = match &self.install_command {
            Some(c) => Invocation::Shell(c.clone()),
            None => match &self.winget_id {
                Some(id) => Invocation::Package(id.clone()),
                None => Invocation::Missing,
            },
        };
        let post_install = match &self.post_install {
            Some(p) => Some(p.clone()),
            None => None,
        };
        OperationItem { invocation, post_install }
    }
}

/// The operation that installs `p`: its custom command if it has one, else
/// its package identifier, else nothing to run; with its post-install
/// command.
pub open spec fn install_operation(p: Package) -> OperationItem {
    OperationItem {
        invocation: match p.install_command {
            Some(c) => Invocation::Shell(c),
            None => match p.winget_id {
                Some(id) => Invocation::Package(id),
                None => Invocation::Missing,
            },
        },
        post_install: p.post_install,
    }
}

/// The lowercase fields of `p` agree with the others.
pub open spec fn prepared(p: Package) -> bool {
    &&& p.name_lower@ == lower_of(p.name@)
    &&& p.desc_lower@ == lower_of(p.description@)
    &&& match p.winget_id {
        Some(id) => p.winget_id_lower matches Some(l) && l@ == lower_of(id@),
        None => p.winget_id_lower is None,
    }
}

/// `q` is `p` with its lowercase fields filled in.
pub open spec fn prepared_from(p: Package, q: Package) -> bool {
    &&& prepared(q)
    &&& q.id == p.id
    &&& q.name == p.name
    &&& q.description == p.description
    &&& q.category == p.category
    &&& q.winget_id == p.winget_id
    &&& q.profiles == p.profiles
    &&& q.post_install == p.post_install
    &&& q.install_command == p.install_command
}

/// Fills in the lowercase fields of every package.
pub fn prepare_packages(packages: &mut Vec<Package>)
    ensures
        final(packages)@.len() == old(packages)@.len(),
        forall|i: int|
            0 <= i < old(packages)@.len() ==> prepared_from(old(packages)@[i], #[trigger] final(packages)@[i]),
{
    let n = packages.len();
    let mut i: usize = 0;
    while i < n
        invariant
            n == old(packages)@.len(),
            packages@.len() == n,
            i <= n,
            forall|j: int| 0 <= j < i ==> prepared_from(old(packages)@[j], #[trigger] packages@[j]),
            forall|j: int| i <= j < n ==> #[trigger] packages@[j] == old(packages)@[j],
        decreases n - i,
    {
        let name_lower = to_lowercase(packages[i].name.as_str());
        let desc_lower = to_lowercase(packages[i].description.as_str());
        let id_lower = match &packages[i].winget_id {
            Some(id) => Some(to_lowercase(id.as_str())),
            None => None,
        };
        packages[i].name_lower = name_lower;
        packages[i].desc_lower = desc_lower;
        packages[i].winget_id_lower = id_lower;
        i += 1;
    }
}

/// `p` lists the profile `slug`.
pub open spec fn in_profile(p: Package, slug: Seq<char>) -> bool {
    exists|k: int| 0 <= k < p.profiles@.len() && (#[trigger] p.profiles@[k])@ == slug
}

/// The ids of the packages that list `slug`, in catalog order.
pub open spec fn selected_ids(catalog: Seq<Package>, slug: Seq<char>) -> Seq<Seq<char>>
    decreases catalog.len(),
{
    if catalog.len() == 0 {
        seq![]
    } else {
        let rest = selected_ids(catalog.drop_last(), slug);
        if in_profile(catalog.last(), slug) {
            rest.push(catalog.last().id@)
        } else {
            rest
        }
    }
}

fn lists_profile(p: &Package, slug: &str) -> (r: bool)
    ensures
        r == in_profile(*p, slug@),
{
    let mut k: usize = 0;
    while k < p.profiles.len()
        invariant
            k <= p.profiles@.len(),
            forall|j: int| 0 <= j < k ==> (#[trigger] p.profiles@[j])@ != slug@,
        decreases p.profiles@.len() - k,
    {
        if same_text(p.profiles[k].as_str(), slug) {
            return true;
        }
        k += 1;
    }
    false
}

/// The ids of the packages that `profile` preselects, in catalog order.
pub fn default_selection(catalog: &[Package], profile: Profile) -> (r: Vec<String>)
    ensures
        texts(r@) == selected_ids(catalog@, profile.slug_text()),
{
    let slug = profile.slug();
    let mut r: Vec<String> = Vec::new();
    let mut i: usize = 0;
    assert(catalog@.subrange(0, 0) =~= Seq::<Package>::empty());
    assert(texts(r@) =~= seq![]);
    while i < catalog.len()
        invariant
            i <= catalog@.len(),
            slug@ == profile.slug_text(),
            texts(r@) == selected_ids(catalog@.subrange(0, i as int), slug@),
        decreases catalog@.len() - i,
    {
        assert(catalog@.subrange(0, i + 1).drop_last() =~= catalog@.subrange(0, i as int));
        let ghost prev = r@;
        if lists_profile(&catalog[i], slug) {
            r.push(catalog[i].id.clone());
            assert(texts(r@) =~= texts(prev).push(catalog@[i as int].id@));
        }
        i += 1;
    }
    assert(catalog@.subrange(0, i as int) =~= catalog@);
    r
}

/// The categories of the catalog, each once, in order of first appearance.
pub open spec fn category_list(catalog: Seq<Package>) -> Seq<Seq<char>>
    decreases catalog.len(),
{
    if catalog.len() == 0 {
        seq![]
    } else {
        let rest = category_list(catalog.drop_last());
        if rest.contains(catalog.last().category@) {
            rest
        } else {
            rest.push(catalog.last().category@)
        }
    }
}

pub fn categories(catalog: &[Package]) -> (r: Vec<String>)
    ensures
        texts(r@) == category_list(catalog@),
{
    let mut r: Vec<String> = Vec::new();
    let mut i: usize = 0;
    assert(catalog@.subrange(0, 0) =~= Seq::<Package>::empty());
    assert(texts(r@) =~= seq![]);
    while i < catalog.len()
        invariant
            i <= catalog@.len(),
            texts(r@) == category_list(catalog@.subrange(0, i as int)),
        decreases catalog@.len() - i,
    {
        assert(catalog@.subrange(0, i + 1).drop_last() =~= catalog@.subrange(0, i as int));
        let cat = catalog[i].category.as_str();
        let mut seen = false;
        let mut k: usize = 0;
        while k < r.len()
            invariant
                k <= r@.len(),
                seen == exists|j: int| 0 <= j < k && (#[trigger] r@[j])@ == cat@,
            decreases r@.len() - k,
        {
            if same_text(r[k].as_str(), cat) {
                seen = true;
            }
            k += 1;
        }
        let ghost prev = r@;
        let ghost views = texts(prev);
        assert(seen == views.contains(cat@)) by {
            if seen {
                let j = choose|j: int| 0 <= j < prev.len() && (#[trigger] prev[j])@ == cat@;
                assert(views[j] == cat@);
            }
            if views.contains(cat@) {
                let j = choose|j: int| 0 <= j < views.len() && views[j] == cat@;
                assert(prev[j]@ == cat@);
            }
        }
        if !seen {
            r.push(catalog[i].category.clone());
            assert(texts(r@) =~= views.push(cat@));
        }
        i += 1;
    }
    assert(catalog@.subrange(0, i as int) =~= catalog@);
    r
}

pub open spec fn display_name(slug: Seq<char>) -> Seq<char> {
    if slug == "browsers"@ {
        "Browsers"@
    } else if slug == "communication"@ {
        "Communication"@
    } else if slug == "development"@ {
        "Development"@
    } else if slug == "documents"@ {
        "Documents"@
    } else if slug == "games"@ {
        "Games"@
    } else if slug == "multimedia"@ {
        "Multimedia"@
    } else if slug == "microsoft-tools"@ {
        "Microsoft Tools"@
    } else if slug == "utilities"@ {
        "Utilities"@
    } else if slug == "security-privacy"@ {
        "Security & Privacy"@
    } else if slug == "design"@ {
        "Design"@
    } else {
        slug
    }
}

/// The human-readable name of a category slug; an unknown slug is its own
/// name.
pub fn category_display_name<'a>(slug: &'a str) -> (r: &'a str)
    ensures
        r@ == display_name(slug@),
{
    if same_text(slug, "browsers") {
        "Browsers"
    } else if same_text(slug, "communication") {
        "Communication"
    } else if same_text(slug, "development") {
        "Development"
    } else if same_text(slug, "documents") {
        "Documents"
    } else if same_text(slug, "games") {
        "Games"
    } else if same_text(slug, "multimedia") {
        "Multimedia"
    } else if same_text(slug, "microsoft-tools") {
        "Microsoft Tools"
    } else if same_text(slug, "utilities") {
        "Utilities"
    } else if same_text(slug, "security-privacy") {
        "Security & Privacy"
    } else if same_text(slug, "design") {
        "Design"
    } else {
        slug
    }
}

/// `t` is one of the texts of `v`.
pub open spec fn has_text(v: Seq<String>, t: Seq<char>) -> bool {
    exists|k: int| 0 <= k < v.len() && (#[trigger] v[k])@ == t
}

/// No text occurs twice in `v`.
pub open spec fn distinct(v: Seq<String>) -> bool {
    forall|i: int, j: int| 0 <= i < j < v.len() ==> (#[trigger] v[i])@ != (#[trigger] v[j])@
}

fn contains_text(v: &Vec<String>, t: &str) -> (r: bool)
    ensures
        r == has_text(v@, t@),
{
    let mut k: usize = 0;
    while k < v.len()
        invariant
            k <= v@.len(),
            forall|j: int| 0 <= j < k ==> (#[trigger] v@[j])@ != t@,
        decreases v@.len() - k,
    {
        if same_text(v[k].as_str(), t) {
            return true;
        }
        k += 1;
    }
    false
}

/// Toggles a group of ids in a selection: when all of them are selected,
/// they are all deselected; otherwise the missing ones are selected. The
/// selection holds each id at most once.
pub fn toggle_set(set: &mut Vec<String>, ids: Vec<String>)
    requires
        distinct(old(set)@),
    ensures
        distinct(final(set)@),
        (forall|t: Seq<char>| has_text(ids@, t) ==> has_text(old(set)@, t)) ==> forall|t: Seq<char>|
            has_text(final(set)@, t) == (has_text(old(set)@, t) && !has_text(ids@, t)),
        !(forall|t: Seq<char>| has_text(ids@, t) ==> has_text(old(set)@, t)) ==> forall|t: Seq<char>|
            has_text(final(set)@, t) == (has_text(old(set)@, t) || has_text(ids@, t)),
{
    let mut all = true;
    let mut k: usize = 0;
    while k < ids.len()
        invariant
            k <= ids@.len(),
            all == forall|j: int| 0 <= j < k ==> has_text(set@, (#[trigger] ids@[j])@),
        decreases ids@.len() - k,
    {
        if !contains_text(set, ids[k].as_str()) {
            all = false;
        }
        k += 1;
    }
    assert(all == forall|t: Seq<char>| has_text(ids@, t) ==> has_text(set@, t)) by {
        if all {
            assert forall|t: Seq<char>| has_text(ids@, t) implies has_text(set@, t) by {
                let j = choose|j: int| 0 <= j < ids@.len() && (#[trigger] ids@[j])@ == t;
                assert(has_text(set@, ids@[j]@));
            }
        } else {
            let j = choose|j: int| 0 <= j < ids@.len() && !has_text(set@, (#[trigger] ids@[j])@);
            assert(has_text(ids@, ids@[j]@));
        }
    }
    if all {
        let mut kept: Vec<String> = Vec::new();
        let mut i: usize = 0;
        while i < set.len()
            invariant
                i <= set@.len(),
                set@ == old(set)@,
                distinct(set@),
                forall|k: int| 0 <= k < kept@.len() ==> !has_text(ids@, (#[trigger] kept@[k])@),
                forall|k: int| 0 <= k < kept@.len() ==> exists|j: int| 0 <= j < i && (#[trigger] set@[j])@ == (#[trigger] kept@[k])@,
                forall|j: int| 0 <= j < i && !has_text(ids@, (#[trigger] set@[j])@) ==> has_text(kept@, set@[j]@),
                distinct(kept@),
            decreases set@.len() - i,
        {
            let ghost prev = kept@;
            if !contains_text(&ids, set[i].as_str()) {
                kept.push(set[i].clone());
                assert forall|a: int, b: int| 0 <= a < b < kept@.len() implies (#[trigger] kept@[a])@ != (#[trigger] kept@[b])@ by {
                    if b == kept@.len() - 1 {
                        let j = choose|j: int| 0 <= j < i && (#[trigger] set@[j])@ == prev[a]@;
                        assert(kept@[a] == prev[a]);
                    }
                }
                assert forall|j: int| 0 <= j < i + 1 && !has_text(ids@, (#[trigger] set@[j])@) implies has_text(kept@, set@[j]@) by {
                    if j < i {
                        let k = choose|k: int| 0 <= k < prev.len() && (#[trigger] prev[k])@ == set@[j]@;
                        assert(kept@[k] == prev[k]);
                    } else {
                        assert(kept@[kept@.len() - 1] == set@[j]);
                    }
                }
                assert forall|k: int| 0 <= k < kept@.len() implies exists|j: int| 0 <= j < i + 1 && (#[trigger] set@[j])@ == (#[trigger] kept@[k])@ by {
                    if k < prev.len() {
                        assert(kept@[k] == prev[k]);
                    } else {
                        assert(set@[i as int]@ == kept@[k]@);
                    }
                }
            }
            i += 1;
        }
        assert forall|t: Seq<char>| has_text(kept@, t) == (has_text(old(set)@, t) && !has_text(ids@, t)) by {
            if has_text(kept@, t) {
                let k = choose|k: int| 0 <= k < kept@.len() && (#[trigger] kept@[k])@ == t;
                let j = choose|j: int| 0 <= j < i && (#[trigger] set@[j])@ == (#[trigger] kept@[k])@;
                assert(set@[j]@ == t);
            }
            if has_text(old(set)@, t) && !has_text(ids@, t) {
                let j = choose|j: int| 0 <= j < old(set)@.len() && (#[trigger] old(set)@[j])@ == t;
                assert(set@[j]@ == t);
            }
        }
        *set = kept;
    } else {
        let mut k: usize = 0;
        while k < ids.len()
            invariant
                k <= ids@.len(),
                distinct(set@),
                forall|t: Seq<char>| has_text(set@, t) == (has_text(old(set)@, t) || exists|j: int| 0 <= j < k && (#[trigger] ids@[j])@ == t),
            decreases ids@.len() - k,
        {
            let ghost prev = set@;
            let ghost id = ids@[k as int]@;
            if !contains_text(set, ids[k].as_str()) {
                set.push(ids[k].clone());
                assert forall|a: int, b: int| 0 <= a < b < set@.len() implies (#[trigger] set@[a])@ != (#[trigger] set@[b])@ by {
                    if b == set@.len() - 1 {
                        assert(set@[a] == prev[a]);
                        assert(!has_text(prev, id));
                    } else {
                        assert(set@[a] == prev[a] && set@[b] == prev[b]);
                    }
                }
            }
            assert forall|t: Seq<char>| has_text(set@, t) == (has_text(old(set)@, t) || exists|j: int| 0 <= j < k + 1 && (#[trigger] ids@[j])@ == t) by {
                if has_text(set@, t) {
                    let m = choose|m: int| 0 <= m < set@.len() && (#[trigger] set@[m])@ == t;
                    if m < prev.len() {
                        assert(prev[m] == set@[m]);
                        assert(has_text(prev, t));
                    } else {
                        assert(ids@[k as int]@ == t);
                    }
                }
                if exists|j: int| 0 <= j < k + 1 && (#[trigger] ids@[j])@ == t {
                    let j = choose|j: int| 0 <= j < k + 1 && (#[trigger] ids@[j])@ == t;
                    if j == k {
                        if !has_text(prev, t) {
                            assert(set@[set@.len() - 1]@ == t);
                        } else {
                            let m = choose|m: int| 0 <= m < prev.len() && (#[trigger] prev[m])@ == t;
                            assert(set@[m] == prev[m]);
                        }
                    } else {
                        assert(has_text(prev, t));
                        let m = choose|m: int| 0 <= m < prev.len() && (#[trigger] prev[m])@ == t;
                        assert(set@[m] == prev[m]);
                    }
                }
                if has_text(old(set)@, t) {
                    assert(has_text(prev, t));
                    let m = choose|m: int| 0 <= m < prev.len() && (#[trigger] prev[m])@ == t;
                    assert(set@[m] == prev[m]);
                }
            }
            k += 1;
        }
        assert forall|t: Seq<char>| has_text(set@, t) == (has_text(old(set)@, t) || has_text(ids@, t)) by {
            if has_text(ids@, t) {
                let j = choose|j: int| 0 <= j < ids@.len() && (#[trigger] ids@[j])@ == t;
                assert(exists|j: int| 0 <= j < k && (#[trigger] ids@[j])@ == t);
            }
        }
    }
}

/// `pkg` shows up in an installed-package scan: its lowercased package
/// identifier is among the scan's identifiers.
pub open spec fn installed(pkg: Package, scan: Seq<InstalledPackage>) -> bool {
    match pkg.winget_id_lower {
        Some(w) => exists|k: int| 0 <= k < scan.len() && (#[trigger] scan[k]).winget_id@ == w@,
        None => false,
    }
}

/// Whether a catalog package is already installed, according to a scan.
pub fn is_installed(pkg: &Package, scan: &[InstalledPackage]) -> (r: bool)
    ensures
        r == installed(*pkg, scan@),
{
    match &pkg.winget_id_lower {
        Some(w) => {
            let mut k: usize = 0;
            while k < scan.len()
                invariant
                    k <= scan@.len(),
                    pkg.winget_id_lower == Some(*w),
                    forall|j: int| 0 <= j < k ==> (#[trigger] scan@[j]).winget_id@ != w@,
                decreases scan@.len() - k,
            {
                if same_text(scan[k].winget_id.as_str(), w.as_str()) {
                    assert(scan@[k as int].winget_id@ == w@);
                    return true;
                }
                k += 1;
            }
            false
        },
        None => false,
    }
}

} // verus!
