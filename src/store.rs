//! The version store and the active link set: where installed versions live,
//! which are installed, and which one the shared links point at.
use vstd::prelude::*;
use crate::error::{IoKind, RnmError};
use crate::catalog::{is_version_text, parse_version};
use crate::text::{
    concat, has_prefix, join_path, join_spec, split_char, split_on, strip_prefix,
    trim_leading, trim_start_char, lemma_split_concat, lemma_split_single, lemma_split_nonempty,
    starts_with,
};

verus! {

broadcast use vstd::seq_lib::group_seq_properties;

/// `a` comes before or equals `b` in the order of `String`'s `Ord`: by
/// character, then by length.
pub open spec fn text_le(a: Seq<char>, b: Seq<char>) -> bool
    decreases a.len(),
{
    if a.len() == 0 {
        true
    } else if b.len() == 0 {
        false
    } else if (a[0] as u32) != (b[0] as u32) {
        (a[0] as u32) < (b[0] as u32)
    } else {
        text_le(a.subrange(1, a.len() as int), b.subrange(1, b.len() as int))
    }
}

pub open spec fn texts_of(v: Seq<String>) -> Seq<Seq<char>> {
    v.map_values(|s: String| s@)
}

/// Relies on `slice::sort` for `String`: it orders the strings ascending and
/// keeps every element.
#[verifier::external_body]
fn sort_texts(v: &mut Vec<String>)
    ensures
        texts_of(final(v)@).to_multiset() == texts_of(old(v)@).to_multiset(),
        forall|i: int, j: int|
            0 <= i < j < final(v)@.len() ==> text_le(#[trigger] final(v)@[i]@, #[trigger] final(v)@[j]@),
{
    v.sort();
}

/// Relies on `home::home_dir`: the user's home directory as text, when it
/// has one that is valid UTF-8. It depends on the environment, so nothing is
/// promised of it.
#[verifier::external_body]
fn home_dir_text() -> (r: Option<String>) {
    home::home_dir().and_then(|p| p.to_str().map(|s| s.to_string()))
}

/// The marker that starts the name of a version's directory.
pub open spec fn marker() -> Seq<char> {
    "node-v"@
}

/// The directory name of a version: the marker, then the version without its
/// leading `v`s.
pub open spec fn dir_name(version: Seq<char>) -> Seq<char> {
    marker() + trim_leading(version, 'v')
}

/// The directory of the manager's files under a home directory.
pub open spec fn rnm_dir_spec(home: Seq<char>) -> Seq<char> {
    join_spec(home, ".rnm"@)
}

/// The version store under a home directory.
pub open spec fn versions_dir_spec(home: Seq<char>) -> Seq<char> {
    join_spec(rnm_dir_spec(home), "versions"@)
}

/// The version store of the user `user`, when the tool acts on their behalf.
pub open spec fn delegated_dir_spec(user: Seq<char>) -> Seq<char> {
    join_spec("/home/"@ + user, ".rnm/versions"@)
}

/// The shared directory that holds the active links.
pub open spec fn link_dir() -> Seq<char> {
    "/usr/local/bin"@
}

/// The path of the version store for a home directory.
pub fn versions_dir_of(home: &str) -> (r: String)
    ensures
        r@ == versions_dir_spec(home@),
{
    let rnm = join_path(home, ".rnm");
    join_path(rnm.as_str(), "versions")
}

/// The manager's own directory, `.rnm` under the user's home directory.
pub fn get_rnm_dir() -> (r: Result<String, RnmError>)
    ensures
        r matches Ok(p) ==> exists|h: Seq<char>| p@ == rnm_dir_spec(h),
        r matches Err(e) ==> e is HomeDirError,
{
    match home_dir_text() {
        Some(h) => {
            let p = join_path(h.as_str(), ".rnm");
            assert(p@ == rnm_dir_spec(h@));
            Ok(p)
        },
        None => Err(RnmError::HomeDirError(String::from_str("cannot determine the home directory"))),
    }
}

/// The version store, `.rnm/versions` under the user's home directory.
pub fn get_versions_dir() -> (r: Result<String, RnmError>)
    ensures
        r matches Ok(p) ==> exists|h: Seq<char>| p@ == versions_dir_spec(h),
        r matches Err(e) ==> e is HomeDirError,
{
    let rnm = get_rnm_dir()?;
    let ghost h = choose|h: Seq<char>| rnm@ == rnm_dir_spec(h);
    let p = join_path(rnm.as_str(), "versions");
    assert(p@ == versions_dir_spec(h));
    Ok(p)
}

/// What the store's enumeration saw of one entry: its name and whether it is a directory.
#[derive(Clone, Debug, PartialEq, Eq)]
pub struct StoreEntry {
    pub name: String,
    pub is_dir: bool,
}

/// The versions the entries of the store hold, in the order of the entries:
/// each directory whose name is the marker followed by the text of a version
/// gives that text; other entries are ignored.
pub open spec fn installed_names(entries: Seq<StoreEntry>) -> Seq<Seq<char>>
    decreases entries.len(),
{
    if entries.len() == 0 {
        Seq::empty()
    } else {
        let r = installed_names(entries.drop_last());
        let e = entries.last();
        let rest = e.name@.subrange(marker().len() as int, e.name@.len() as int);
        if e.is_dir && has_prefix(e.name@, marker()) && is_version_text(rest) {
            r.push(rest)
        } else {
            r
        }
    }
}

/// One link of the active set: where it stands and what it points at.
#[derive(Clone, Debug, PartialEq, Eq)]
pub struct Link {
    pub path: String,
    pub target: String,
}

/// The managed executables, in the order their links are replaced.
pub open spec fn tools() -> Seq<Seq<char>> {
    seq!["node"@, "npm"@, "npx"@]
}

/// The version the runtime link names: its target must start with the store's
/// path and a separator, and the next path segment must be the marker followed
/// by the version; nothing for any other shape.
pub open spec fn current_spec(dir: Seq<char>, resolves: bool, target: Option<Seq<char>>) -> Option<Seq<char>> {
    if !resolves {
        None
    } else {
        match target {
            None => None,
            Some(t) => {
                let base = dir + seq!['/'];
                if has_prefix(t, base) {
                    let seg = split_on(t.subrange(base.len() as int, t.len() as int), '/')[0];
                    if has_prefix(seg, marker()) {
                        Some(seg.subrange(marker().len() as int, seg.len() as int))
                    } else {
                        None
                    }
                } else {
                    None
                }
            },
        }
    }
}

/// The manager of one version store.
pub struct Manager {
    versions_dir: String,
    original_user: Option<String>,
}

impl Manager {
    /// The store path is never empty and does not end in a separator.
    pub open spec fn wf(&self) -> bool {
        self.dir().len() > 0 && self.dir().last() != '/'
    }

    /// The path of the version store.
    pub closed spec fn dir(&self) -> Seq<char> {
        self.versions_dir@
    }

    /// The user this manager acts for, when it acts on someone's behalf.
    pub closed spec fn user(&self) -> Option<Seq<char>> {
        match self.original_user {
            Some(u) => Some(u@),
            None => None,
        }
    }

    /// The path of a version's directory in this store.
    pub open spec fn version_path_spec(&self, version: Seq<char>) -> Seq<char> {
        join_spec(self.dir(), dir_name(version))
    }

    /// The links that make `version` active: each tool's link in the shared
    /// directory, pointing at the tool in the version's `bin` directory.
    pub open spec fn links_spec(&self, version: Seq<char>) -> Seq<(Seq<char>, Seq<char>)> {
        tools().map_values(
            |tool: Seq<char>|
                (
                    join_spec(link_dir(), tool),
                    join_spec(join_spec(self.version_path_spec(version), "bin"@), tool),
                ),
        )
    }

    /// A manager for the store under `home`, or, when acting on behalf of
    /// another user on a Unix system, for that user's store.
    pub fn with_home(home: Option<&str>, sudo_user: Option<&str>, unix: bool) -> (r: Result<Manager, RnmError>)
        ensures
            home is None ==> (r matches Err(e) && e is HomeDirError),
            home matches Some(h) ==> (r matches Ok(m) && m.wf() && m.user() == (match sudo_user {
                Some(u) => Some(u@),
                None => None,
            }) && m.dir() == (match sudo_user {
                Some(u) => if unix { delegated_dir_spec(u@) } else { versions_dir_spec(h@) },
                None => versions_dir_spec(h@),
            })),
    {
        proof {
            reveal_strlit("versions");
            reveal_strlit(".rnm/versions");
            reveal_strlit("/home/");
        }
        let h = match home {
            Some(h) => h,
            None => {
                return Err(RnmError::HomeDirError(String::from_str("cannot determine the home directory")));
            },
        };
        let own = versions_dir_of(h);
        let (versions_dir, original_user) = match sudo_user {
            Some(u) => {
                let dir = if unix {
                    let base = concat("/home/", u);
                    join_path(base.as_str(), ".rnm/versions")
                } else {
                    own
                };
                (dir, Some(String::from_str(u)))
            },
            None => (own, None),
        };
        Ok(Manager { versions_dir, original_user })
    }

    /// A manager for the invoking user's store, or for the store of `sudo_user`
    /// when acting on their behalf on a Unix system.
    pub fn new(sudo_user: Option<&str>, unix: bool) -> (r: Result<Manager, RnmError>)
        ensures
            r matches Ok(m) ==> m.wf() && m.user() == (match sudo_user {
                Some(u) => Some(u@),
                None => None,
            }),
            r matches Ok(m) ==> (match sudo_user {
                Some(u) => if unix {
                    m.dir() == delegated_dir_spec(u@)
                } else {
                    exists|h: Seq<char>| m.dir() == versions_dir_spec(h)
                },
                None => exists|h: Seq<char>| m.dir() == versions_dir_spec(h),
            }),
            r matches Err(e) ==> e is HomeDirError,
    {
        let home = home_dir_text();
        match home {
            Some(h) => Manager::with_home(Some(h.as_str()), sudo_user, unix),
            None => Manager::with_home(None, sudo_user, unix),
        }
    }

    /// The path of the version store.
    pub fn versions_dir(&self) -> (r: &String)
        ensures
            r@ == self.dir(),
    {
        &self.versions_dir
    }

    /// The user this manager acts for, when it acts on someone's behalf.
    pub fn original_user(&self) -> (r: Option<String>)
        ensures
            (match r {
                Some(u) => Some(u@),
                None => None,
            }) == self.user(),
    {
        match &self.original_user {
            Some(u) => Some(String::from_str(u.as_str())),
            None => None,
        }
    }

    /// The directory name of a version.
    pub fn version_dir_name(version: &str) -> (r: String)
        ensures
            r@ == dir_name(version@),
    {
        proof {
            reveal_strlit("node-v");
        }
        let v = trim_start_char(version, 'v');
        concat("node-v", v.as_str())
    }

    /// The path of a version's directory in this store.
    pub fn version_path(&self, version: &str) -> (r: String)
        ensures
            r@ == self.version_path_spec(version@),
    {
        let name = Manager::version_dir_name(version);
        join_path(self.versions_dir.as_str(), name.as_str())
    }

    /// The installed versions, sorted ascending, from what the enumeration of
    /// the store saw. Entries that are not directories or lack the marker are ignored.
    pub fn list_local(&self, entries: &Vec<StoreEntry>) -> (r: Vec<String>)
        ensures
            texts_of(r@).to_multiset() == installed_names(entries@).to_multiset(),
            forall|i: int, j: int| 0 <= i < j < r@.len() ==> text_le(#[trigger] r@[i]@, #[trigger] r@[j]@),
    {
        proof {
            reveal_strlit("node-v");
        }
        let mut out: Vec<String> = Vec::new();
        let mut i: usize = 0;
        while i < entries.len()
            invariant
                i <= entries@.len(),
                texts_of(out@) == installed_names(entries@.subrange(0, i as int)),
            decreases entries@.len() - i,
        {
            assert(entries@.subrange(0, i + 1).drop_last() == entries@.subrange(0, i as int));
            let e = &entries[i];
            if e.is_dir {
                match strip_prefix(e.name.as_str(), "node-v") {
                    Some(v) => {
                        if parse_version(v.as_str()).is_some() {
                            let ghost before = out@;
                            out.push(v);
                            assert(texts_of(out@) =~= texts_of(before).push(v@));
                        }
                    },
                    None => {},
                }
            }
            i = i + 1;
        }
        assert(entries@.subrange(0, entries@.len() as int) == entries@);
        sort_texts(&mut out);
        out
    }

    /// Decides an uninstall: the path to remove, or `NotInstalled` when the
    /// version's directory does not exist.
    pub fn uninstall(&self, version: &str, present: bool) -> (r: Result<String, RnmError>)
        ensures
            !present ==> (r matches Err(RnmError::NotInstalled(v)) && v@ == version@),
            present ==> (r matches Ok(p) && p@ == self.version_path_spec(version@)),
    {
        if !present {
            return Err(RnmError::NotInstalled(String::from_str(version)));
        }
        Ok(self.version_path(version))
    }

    /// Decides an activation: the links to create, in order, or why not.
    /// `present`, `has_bin` and `writable` say whether the version's directory and
    /// its `bin` directory exist and whether the shared directory can be written.
    pub fn use_version(
        &self,
        version: &str,
        installed: &Vec<String>,
        present: bool,
        has_bin: bool,
        writable: bool,
    ) -> (r: Result<Vec<Link>, RnmError>)
        ensures
            ({
                let v = trim_leading(version@, 'v');
                let listed = texts_of(installed@).contains(v);
                &&& !(present && listed) ==> (r matches Err(RnmError::NotInstalled(s)) && s@ == v)
                &&& present && listed && !has_bin ==> (r matches Err(RnmError::InvalidNodeVersion(s))
                    && s@ == v)
                &&& present && listed && has_bin && !writable ==> (r matches Err(
                    RnmError::FileIoError(k, _),
                ) && k == IoKind::PermissionDenied)
                &&& present && listed && has_bin && writable ==> (r matches Ok(links)
                    && links@.map_values(|l: Link| (l.path@, l.target@)) == self.links_spec(version@))
            }),
    {
        proof {
            reveal_strlit("node-v");
            reveal_strlit("bin");
            reveal_strlit("node");
            reveal_strlit("npm");
            reveal_strlit("npx");
            reveal_strlit("/usr/local/bin");
        }
        let v = trim_start_char(version, 'v');
        let mut listed = false;
        let mut i: usize = 0;
        while i < installed.len()
            invariant
                i <= installed@.len(),
                listed == texts_of(installed@.subrange(0, i as int)).contains(v@),
            decreases installed@.len() - i,
        {
            assert(texts_of(installed@.subrange(0, i + 1)) == texts_of(installed@.subrange(0, i as int)).push(installed@[i as int]@));
            if installed[i] == v {
                listed = true;
            }
            i = i + 1;
        }
        assert(installed@.subrange(0, installed@.len() as int) == installed@);
        if !present || !listed {
            return Err(RnmError::NotInstalled(v));
        }
        if !has_bin {
            return Err(RnmError::InvalidNodeVersion(v));
        }
        if !writable {
            return Err(RnmError::FileIoError(IoKind::PermissionDenied, String::from_str("writing the shared link directory needs elevated privileges")));
        }
        let path = self.version_path(version);
        let bin = join_path(path.as_str(), "bin");
        let mut links: Vec<Link> = Vec::new();
        let names: [&str; 3] = ["node", "npm", "npx"];
        let mut k: usize = 0;
        while k < 3
            invariant
                k <= 3,
                names@.map_values(|s: &str| s@) == tools(),
                bin@ == join_spec(self.version_path_spec(version@), "bin"@),
                links@.map_values(|l: Link| (l.path@, l.target@)) == self.links_spec(version@).take(k as int),
            decreases 3 - k,
        {
            let tool = names[k];
            let ghost before = links@;
            assert(tool@ == tools()[k as int]);
            assert(self.links_spec(version@).take(k + 1) =~= self.links_spec(version@).take(k as int).push(
                self.links_spec(version@)[k as int],
            ));
            links.push(Link { path: join_path("/usr/local/bin", tool), target: join_path(bin.as_str(), tool) });
            assert(links@.map_values(|l: Link| (l.path@, l.target@)) =~= self.links_spec(version@).take(k + 1));
            k = k + 1;
        }
        assert(self.links_spec(version@).take(3) =~= self.links_spec(version@));
        Ok(links)
    }

    /// The active version, from the runtime link: whether its target resolves,
    /// and the target it names. Nothing when the link is absent or dangling, when
    /// it points outside the store, or has any other unexpected shape.
    pub fn current(&self, resolves: bool, target: Option<&str>) -> (r: Option<String>)
        requires
            self.wf(),
        ensures
            (match r {
                Some(s) => Some(s@),
                None => None,
            }) == current_spec(self.dir(), resolves, match target {
                Some(t) => Some(t@),
                None => None,
            }),
            !resolves ==> r is None,
            target is None ==> r is None,
            target matches Some(t) && !has_prefix(t@, self.dir() + seq!['/']) ==> r is None,
    {
        proof {
            reveal_strlit("node-v");
        }
        if !resolves {
            return None;
        }
        let t = match target {
            Some(t) => t,
            None => {
                return None;
            },
        };
        proof {
            reveal_strlit("/");
        }
        let base = concat(self.versions_dir.as_str(), "/");
        assert(base@ =~= self.dir() + seq!['/']);
        if !starts_with(t, base.as_str()) {
            return None;
        }
        let rest = t.substring_char(base.unicode_len(), t.unicode_len());
        let pieces = split_char(rest, '/');
        proof {
            lemma_split_nonempty(rest@, '/');
            assert(pieces@[0]@ == pieces@.map_values(|x: String| x@)[0]);
        }
        strip_prefix(pieces[0].as_str(), "node-v")
    }
}

/// Activating a version and then reading the runtime link gives back that
/// version, without its leading `v`s, for every version whose text has no
/// separator.
pub proof fn lemma_activate_then_current(m: Manager, version: Seq<char>)
    requires
        m.wf(),
        !trim_leading(version, 'v').contains('/'),
    ensures
        current_spec(m.dir(), true, Some(m.links_spec(version)[0].1)) == Some(trim_leading(version, 'v')),
{
    reveal_strlit("node-v");
    reveal_strlit("bin");
    reveal_strlit("node");
    reveal_strlit("npm");
    reveal_strlit("npx");
    let d = m.dir();
    let v = trim_leading(version, 'v');
    let n = dir_name(version);
    assert(n[0] == 'n');
    assert(!n.contains('/')) by {
        if n.contains('/') {
            let k = choose|k: int| 0 <= k < n.len() && n[k] == '/';
            if k >= 6 {
                assert(v[k - 6] == '/');
            }
        }
    }
    let p = join_spec(d, n);
    assert(p == d + seq!['/'] + n);
    assert(p.last() == n.last());
    let pb = join_spec(p, "bin"@);
    assert(pb == p + seq!['/'] + "bin"@);
    let target = join_spec(pb, "node"@);
    assert(target == pb + seq!['/'] + "node"@);
    assert(m.links_spec(version)[0].1 == target);
    let base = d + seq!['/'];
    let tail = "bin"@ + seq!['/'] + "node"@;
    assert(target =~= base + (n + seq!['/'] + tail));
    assert(target.subrange(0, base.len() as int) =~= base);
    let rest = target.subrange(base.len() as int, target.len() as int);
    assert(rest =~= n + seq!['/'] + tail);
    lemma_split_concat(n, tail, '/');
    lemma_split_single(n, '/');
    assert(split_on(rest, '/')[0] == n);
    assert(n.subrange(0, 6) =~= marker());
    assert(n.subrange(6, n.len() as int) =~= v);
}

/// The entries of the store without the one named `name`.
pub open spec fn without_entry(entries: Seq<StoreEntry>, name: Seq<char>) -> Seq<StoreEntry>
    decreases entries.len(),
{
    if entries.len() == 0 {
        Seq::empty()
    } else {
        let r = without_entry(entries.drop_last(), name);
        if entries.last().name@ == name {
            r
        } else {
            r.push(entries.last())
        }
    }
}

/// Once a version's directory is removed from the store, listing the store
/// never reports that version.
pub proof fn lemma_uninstalled_not_listed(entries: Seq<StoreEntry>, version: Seq<char>)
    ensures
        !installed_names(without_entry(entries, dir_name(version))).contains(trim_leading(version, 'v')),
    decreases entries.len(),
{
    let name = dir_name(version);
    let v = trim_leading(version, 'v');
    if entries.len() > 0 {
        lemma_uninstalled_not_listed(entries.drop_last(), version);
        let r = without_entry(entries.drop_last(), name);
        let e = entries.last();
        if e.name@ != name {
            let kept = r.push(e);
            assert(kept.drop_last() =~= r);
            let got = e.name@.subrange(marker().len() as int, e.name@.len() as int);
            if e.is_dir && has_prefix(e.name@, marker()) && is_version_text(got) {
                if got == v {
                    assert(e.name@ =~= e.name@.subrange(0, marker().len() as int) + got);
                }
                assert(installed_names(kept) == installed_names(r).push(got));
            }
        }
    }
}

} // verus!
