//! The catalog of remote versions: parsing a directory listing, filtering it by
//! a version prefix, and summarizing it for display.
use vstd::prelude::*;
use crate::error::RnmError;
use crate::text::{digit, lemma_split_concat, lemma_split_single, dec, decimal, split_char, split_on, trim_end_char, trim_trailing, strip_prefix};
use crate::version::{SemanticVersion, newer, version_text, sorted_desc, sort_descending};
use crate::store::Manager;

verus! {

broadcast use vstd::seq_lib::group_seq_properties;

/// What `semver::Version::parse` gives for a text: the three numbers, the
/// pre-release part and the build part, or nothing when the text is not a version.
pub uninterp spec fn semver_parse(s: Seq<char>) -> Option<(u64, u64, u64, Seq<char>, Seq<char>)>;

/// The texts of the `a` elements of an HTML document, in document order, as
/// `scraper` collects them.
pub uninterp spec fn anchor_texts(html: Seq<char>) -> Seq<Seq<char>>;

/// The parts of a parsed version, with its texts as character sequences.
pub open spec fn parts_view(r: Option<(u64, u64, u64, String, String)>) -> Option<
    (u64, u64, u64, Seq<char>, Seq<char>),
> {
    match r {
        Some(t) => Some((t.0, t.1, t.2, t.3@, t.4@)),
        None => None,
    }
}

/// A parse result with no pre-release and no build part comes from the text
/// `X.Y.Z` of its numbers.
pub open spec fn plain_only_from_text(p: Option<(u64, u64, u64, Seq<char>, Seq<char>)>, s: Seq<char>) -> bool {
    match p {
        Some(t) => t.3.len() == 0 && t.4.len() == 0 ==> s == version_text(t.0, t.1, t.2),
        None => true,
    }
}

/// Relies on `semver::Version::parse`: it parses a version; a text `X.Y.Z` of
/// three decimal numbers without leading zeros is the version `X.Y.Z` with no
/// pre-release and no build part, and a result with neither part comes from
/// such a text only.
#[verifier::external_body]
fn parse_semver(s: &str) -> (r: Option<(u64, u64, u64, String, String)>)
    ensures
        parts_view(r) == semver_parse(s@),
        forall|a: u64, b: u64, c: u64| #[trigger] version_text(a, b, c) == s@
            ==> parts_view(r) == Some((a, b, c, Seq::<char>::empty(), Seq::<char>::empty())),
        plain_only_from_text(parts_view(r), s@),
{
    semver::Version::parse(s).ok().map(
        |v| (v.major, v.minor, v.patch, v.pre.as_str().to_string(), v.build.as_str().to_string()),
    )
}

/// Relies on `scraper::Html::parse_document`, `scraper::Selector::parse` and
/// `Html::select`: the text of each `a` element of the document, in order.
/// Parsing a document never fails, and the selector `a` is a valid one.
#[verifier::external_body]
fn html_anchor_texts(html: &str) -> (r: Result<Vec<String>, String>)
    ensures
        r is Ok,
        r matches Ok(v) ==> v@.map_values(|t: String| t@) == anchor_texts(html@),
{
    let document = scraper::Html::parse_document(html);
    let selector = scraper::Selector::parse("a").map_err(|e| e.to_string())?;
    Ok(document.select(&selector).map(|el| el.text().collect::<String>()).collect())
}

/// Whether `s` is the text `X.Y.Z` of some version.
pub open spec fn is_version_text(s: Seq<char>) -> bool {
    exists|a: u64, b: u64, c: u64| #[trigger] version_text(a, b, c) == s
}

/// The version whose text `X.Y.Z` is `s`, if there is one.
pub open spec fn version_of_text(s: Seq<char>) -> Option<SemanticVersion> {
    if is_version_text(s) {
        let (a, b, c) = choose|a: u64, b: u64, c: u64| #[trigger] version_text(a, b, c) == s;
        Some(SemanticVersion { major: a, minor: b, patch: c })
    } else {
        None
    }
}

/// The text of a version determines the version.
pub proof fn lemma_version_text_injective(a: u64, b: u64, c: u64, x: u64, y: u64, z: u64)
    requires
        version_text(a, b, c) == version_text(x, y, z),
    ensures
        a == x && b == y && c == z,
{
    lemma_split_fields(a, b, c);
    lemma_split_fields(x, y, z);
    assert(split_on(version_text(a, b, c), '.')[0] == dec(a as nat));
    assert(split_on(version_text(x, y, z), '.')[0] == dec(x as nat));
    assert(split_on(version_text(x, y, z), '.')[1] == dec(y as nat));
    assert(split_on(version_text(x, y, z), '.')[2] == dec(z as nat));
    lemma_dec_injective(a as nat, x as nat);
    lemma_dec_injective(b as nat, y as nat);
    lemma_dec_injective(c as nat, z as nat);
}

/// The version whose text is exactly `s`: three decimal numbers without
/// leading zeros, separated by dots, and nothing else.
pub fn parse_version(s: &str) -> (r: Option<SemanticVersion>)
    ensures
        r == version_of_text(s@),
{
    match parse_semver(s) {
        Some(p) => {
            if p.3.unicode_len() == 0 && p.4.unicode_len() == 0 {
                proof {
                    assert(s@ == version_text(p.0, p.1, p.2));
                    assert(is_version_text(s@));
                    let (a, b, c) = choose|a: u64, b: u64, c: u64| #[trigger] version_text(a, b, c) == s@;
                    lemma_version_text_injective(a, b, c, p.0, p.1, p.2);
                }
                Some(SemanticVersion { major: p.0, minor: p.1, patch: p.2 })
            } else {
                proof {
                    if is_version_text(s@) {
                        let (a, b, c) = choose|a: u64, b: u64, c: u64| #[trigger] version_text(a, b, c) == s@;
                        assert(parts_view(Some(p)) == Some((a, b, c, Seq::<char>::empty(), Seq::<char>::empty())));
                    }
                }
                None
            }
        },
        None => {
            proof {
                if is_version_text(s@) {
                    let (a, b, c) = choose|a: u64, b: u64, c: u64| #[trigger] version_text(a, b, c) == s@;
                    assert(version_text(a, b, c) == s@);
                }
            }
            None
        },
    }
}

/// The version an anchor text `vX.Y.Z/` names: trailing slashes and the leading
/// `v` are removed and the rest must be the text of a version.
pub open spec fn anchor_version_spec(text: Seq<char>) -> Option<SemanticVersion> {
    let t = trim_trailing(text, '/');
    if t.len() > 0 && t[0] == 'v' {
        version_of_text(t.subrange(1, t.len() as int))
    } else {
        None
    }
}

/// The versions that a sequence of anchor texts names, in order; the others are dropped.
pub open spec fn versions_of(texts: Seq<Seq<char>>) -> Seq<SemanticVersion>
    decreases texts.len(),
{
    if texts.len() == 0 {
        Seq::empty()
    } else {
        let r = versions_of(texts.drop_last());
        match anchor_version_spec(texts.last()) {
            Some(v) => r.push(v),
            None => r,
        }
    }
}

/// The version an anchor text names, if any. Every text `vX.Y.Z`, with any
/// number of trailing slashes, gives the version `X.Y.Z`.
pub fn anchor_version(text: &str) -> (r: Option<SemanticVersion>)
    ensures
        r == anchor_version_spec(text@),
        forall|a: u64, b: u64, c: u64| trim_trailing(text@, '/') == seq!['v'] + #[trigger] version_text(a, b, c)
            ==> r == Some(SemanticVersion { major: a, minor: b, patch: c }),
{
    let t = trim_end_char(text, '/');
    proof {
        reveal_strlit("v");
    }
    proof {
        if t@.len() > 0 && t@[0] == 'v' {
            assert(t@.subrange(0, 1) =~= "v"@);
        }
    }
    match strip_prefix(t.as_str(), "v") {
        None => None,
        Some(rest) => {
            proof {
                assert(t@.subrange(0, 1)[0] == t@[0]);
                assert(rest@ == t@.subrange(1, t@.len() as int));
                assert forall|a: u64, b: u64, c: u64| t@ == seq!['v'] + #[trigger] version_text(a, b, c)
                    implies rest@ == version_text(a, b, c) by {
                    assert(rest@ =~= t@.subrange(1, t@.len() as int));
                    assert(t@.subrange(1, t@.len() as int) =~= version_text(a, b, c));
                }
            }
            let r = parse_version(rest.as_str());
            proof {
                assert forall|a: u64, b: u64, c: u64| t@ == seq!['v'] + #[trigger] version_text(a, b, c)
                    implies r == Some(SemanticVersion { major: a, minor: b, patch: c }) by {
                    assert(is_version_text(rest@));
                    let (x, y, z) = choose|x: u64, y: u64, z: u64| #[trigger] version_text(x, y, z) == rest@;
                    lemma_version_text_injective(a, b, c, x, y, z);
                }
            }
            r
        },
    }
}

/// The versions that the anchor texts name, in order.
pub fn versions_from_anchors(texts: &Vec<String>) -> (r: Vec<SemanticVersion>)
    ensures
        r@ == versions_of(texts@.map_values(|t: String| t@)),
{
    let mut out: Vec<SemanticVersion> = Vec::new();
    let mut i: usize = 0;
    while i < texts.len()
        invariant
            i <= texts@.len(),
            out@ == versions_of(texts@.map_values(|t: String| t@).subrange(0, i as int)),
        decreases texts@.len() - i,
    {
        let ghost all = texts@.map_values(|t: String| t@);
        assert(all.subrange(0, i + 1).drop_last() == all.subrange(0, i as int));
        match anchor_version(texts[i].as_str()) {
            Some(v) => out.push(v),
            None => {},
        }
        i = i + 1;
    }
    assert(texts@.map_values(|t: String| t@).subrange(0, texts@.len() as int) == texts@.map_values(
        |t: String| t@,
    ));
    out
}

/// The versions that an HTML directory listing links to, in document order.
pub fn parse_listing(html: &str) -> (r: Result<Vec<SemanticVersion>, RnmError>)
    ensures
        r matches Ok(v) && v@ == versions_of(anchor_texts(html@)),
{
    match html_anchor_texts(html) {
        Ok(texts) => Ok(versions_from_anchors(&texts)),
        Err(msg) => Err(RnmError::HtmlParseError(msg)),
    }
}

/// A version matches the pieces of a filter when there are one to three of them
/// and each equals the decimal text of the corresponding field.
pub open spec fn filter_matches(v: SemanticVersion, parts: Seq<Seq<char>>) -> bool {
    &&& 1 <= parts.len() <= 3
    &&& dec(v.major as nat) == parts[0]
    &&& parts.len() >= 2 ==> dec(v.minor as nat) == parts[1]
    &&& parts.len() >= 3 ==> dec(v.patch as nat) == parts[2]
}

/// The versions that match the pieces of a filter, in order.
pub open spec fn filtered(vs: Seq<SemanticVersion>, parts: Seq<Seq<char>>) -> Seq<SemanticVersion>
    decreases vs.len(),
{
    if vs.len() == 0 {
        Seq::empty()
    } else {
        let r = filtered(vs.drop_last(), parts);
        if filter_matches(vs.last(), parts) {
            r.push(vs.last())
        } else {
            r
        }
    }
}

/// Whether `v` matches the filter pieces `parts`.
pub fn matches_parts(v: &SemanticVersion, parts: &Vec<String>) -> (r: bool)
    ensures
        r == filter_matches(*v, parts@.map_values(|t: String| t@)),
{
    let n = parts.len();
    if n < 1 || n > 3 {
        return false;
    }
    if decimal(v.major) != parts[0] {
        return false;
    }
    if n >= 2 && decimal(v.minor) != parts[1] {
        return false;
    }
    if n >= 3 && decimal(v.patch) != parts[2] {
        return false;
    }
    true
}

/// The versions that match a filter `major`, `major.minor` or
/// `major.minor.patch`, in order. Each given field must equal the version's
/// exactly; any other filter matches nothing.
pub fn filter_versions(vs: &Vec<SemanticVersion>, filter: &str) -> (r: Vec<SemanticVersion>)
    ensures
        r@ == filtered(vs@, split_on(filter@, '.')),
{
    let parts = split_char(filter, '.');
    let mut out: Vec<SemanticVersion> = Vec::new();
    let mut i: usize = 0;
    while i < vs.len()
        invariant
            i <= vs@.len(),
            parts@.map_values(|t: String| t@) == split_on(filter@, '.'),
            out@ == filtered(vs@.subrange(0, i as int), split_on(filter@, '.')),
        decreases vs@.len() - i,
    {
        assert(vs@.subrange(0, i + 1).drop_last() == vs@.subrange(0, i as int));
        if matches_parts(&vs[i], &parts) {
            out.push(vs[i]);
        }
        i = i + 1;
    }
    assert(vs@.subrange(0, vs@.len() as int) == vs@);
    out
}

/// The largest major number below `bound` among `vs`, if any.
pub open spec fn max_major_below(vs: Seq<SemanticVersion>, bound: int) -> Option<u64>
    decreases vs.len(),
{
    if vs.len() == 0 {
        None
    } else {
        let r = max_major_below(vs.drop_last(), bound);
        let m = vs.last().major;
        if m < bound && (r is None || m > r.unwrap()) {
            Some(m)
        } else {
            r
        }
    }
}

/// The `k` largest distinct major numbers below `bound` among `vs`, largest first.
pub open spec fn top_majors(vs: Seq<SemanticVersion>, bound: int, k: nat) -> Seq<u64>
    decreases k,
{
    if k == 0 {
        Seq::empty()
    } else {
        match max_major_below(vs, bound) {
            None => Seq::empty(),
            Some(m) => seq![m] + top_majors(vs, m as int, (k - 1) as nat),
        }
    }
}

/// The versions of `vs` with major number `m`, in order.
pub open spec fn of_major(vs: Seq<SemanticVersion>, m: u64) -> Seq<SemanticVersion>
    decreases vs.len(),
{
    if vs.len() == 0 {
        Seq::empty()
    } else {
        let r = of_major(vs.drop_last(), m);
        if vs.last().major == m {
            r.push(vs.last())
        } else {
            r
        }
    }
}

/// How many major groups a summary shows.
pub const SHOWN_MAJORS: usize = 3;

/// How many versions of each major group a summary shows.
pub const SHOWN_PER_MAJOR: usize = 5;

/// One group of a summary: a major number, its first versions, and how many
/// more there are.
#[derive(Clone, Debug, PartialEq, Eq)]
pub struct MajorGroup {
    pub major: u64,
    pub shown: Vec<SemanticVersion>,
    pub omitted: usize,
}

/// The group of major `m`: its first five versions and the count of the rest.
pub open spec fn group_of(vs: Seq<SemanticVersion>, m: u64) -> (u64, Seq<SemanticVersion>, nat) {
    let all = of_major(vs, m);
    if all.len() > SHOWN_PER_MAJOR {
        (m, all.take(SHOWN_PER_MAJOR as int), (all.len() - SHOWN_PER_MAJOR) as nat)
    } else {
        (m, all, 0)
    }
}

/// The summary of `vs`: the groups of its three largest major numbers, largest first.
pub open spec fn summary(vs: Seq<SemanticVersion>) -> Seq<(u64, Seq<SemanticVersion>, nat)> {
    top_majors(vs, u64::MAX as int + 1, SHOWN_MAJORS as nat).map_values(
        |m: u64| group_of(vs, m),
    )
}

pub open spec fn group_view(g: MajorGroup) -> (u64, Seq<SemanticVersion>, nat) {
    (g.major, g.shown@, g.omitted as nat)
}

/// The largest major number below `bound` among `vs`, if any.
fn largest_major_below(vs: &Vec<SemanticVersion>, bound: u64, unbounded: bool) -> (r: Option<u64>)
    ensures
        r == max_major_below(vs@, if unbounded { u64::MAX as int + 1 } else { bound as int }),
{
    let ghost b: int = if unbounded { u64::MAX as int + 1 } else { bound as int };
    let mut best: Option<u64> = None;
    let mut i: usize = 0;
    while i < vs.len()
        invariant
            i <= vs@.len(),
            b == if unbounded { u64::MAX as int + 1 } else { bound as int },
            best == max_major_below(vs@.subrange(0, i as int), b),
        decreases vs@.len() - i,
    {
        assert(vs@.subrange(0, i + 1).drop_last() == vs@.subrange(0, i as int));
        let m = vs[i].major;
        if (unbounded || m < bound) && (best.is_none() || m > best.unwrap()) {
            best = Some(m);
        }
        i = i + 1;
    }
    assert(vs@.subrange(0, vs@.len() as int) == vs@);
    best
}

/// The group of major `m` in `vs`.
fn group_for(vs: &Vec<SemanticVersion>, m: u64) -> (r: MajorGroup)
    ensures
        group_view(r) == group_of(vs@, m),
{
    let mut shown: Vec<SemanticVersion> = Vec::new();
    let mut count: usize = 0;
    let mut i: usize = 0;
    while i < vs.len()
        invariant
            i <= vs@.len(),
            count == of_major(vs@.subrange(0, i as int), m).len(),
            count <= i,
            shown@ == if count <= SHOWN_PER_MAJOR {
                of_major(vs@.subrange(0, i as int), m)
            } else {
                of_major(vs@.subrange(0, i as int), m).take(SHOWN_PER_MAJOR as int)
            },
        decreases vs@.len() - i,
    {
        assert(vs@.subrange(0, i + 1).drop_last() == vs@.subrange(0, i as int));
        if vs[i].major == m {
            if count < SHOWN_PER_MAJOR {
                shown.push(vs[i]);
            }
            count = count + 1;
        }
        proof {
            let all = of_major(vs@.subrange(0, i + 1), m);
            if count > SHOWN_PER_MAJOR {
                assert(shown@ =~= all.take(SHOWN_PER_MAJOR as int));
            }
        }
        i = i + 1;
    }
    assert(vs@.subrange(0, vs@.len() as int) == vs@);
    let omitted = if count > SHOWN_PER_MAJOR { count - SHOWN_PER_MAJOR } else { 0 };
    MajorGroup { major: m, shown, omitted }
}

/// Summarizes versions for display: one group for each of the three largest
/// major numbers, largest first, each with its first five versions in the
/// order given and the count of those left out.
pub fn summarize(vs: &Vec<SemanticVersion>) -> (r: Vec<MajorGroup>)
    ensures
        r@.map_values(|g: MajorGroup| group_view(g)) == summary(vs@),
{
    let mut out: Vec<MajorGroup> = Vec::new();
    let mut bound: u64 = 0;
    let mut unbounded = true;
    let mut k: usize = 0;
    let mut exhausted = false;
    let ghost full = top_majors(vs@, u64::MAX as int + 1, SHOWN_MAJORS as nat);
    while k < SHOWN_MAJORS && !exhausted
        invariant
            k <= SHOWN_MAJORS,
            exhausted ==> max_major_below(
                vs@,
                if unbounded { u64::MAX as int + 1 } else { bound as int },
            ) is None,
            full == top_majors(vs@, u64::MAX as int + 1, SHOWN_MAJORS as nat),
            full == out@.map_values(|g: MajorGroup| g.major) + top_majors(
                vs@,
                if unbounded { u64::MAX as int + 1 } else { bound as int },
                (SHOWN_MAJORS - k) as nat,
            ),
            forall|j: int| 0 <= j < out@.len() ==> group_view(#[trigger] out@[j]) == group_of(vs@, out@[j].major),
            unbounded ==> k == 0 && out@.len() == 0,
        decreases SHOWN_MAJORS - k + (if exhausted { 0int } else { 1int }),
    {
        match largest_major_below(vs, bound, unbounded) {
            None => {
                exhausted = true;
            },
            Some(m) => {
                let ghost before = out@;
                let g = group_for(vs, m);
                out.push(g);
                assert(out@.map_values(|g: MajorGroup| g.major) =~= before.map_values(
                    |g: MajorGroup| g.major,
                ).push(m));
                bound = m;
                unbounded = false;
                k = k + 1;
            },
        }
    }
    proof {
        let b = if unbounded { u64::MAX as int + 1 } else { bound as int };
        assert(top_majors(vs@, b, (SHOWN_MAJORS - k) as nat) =~= Seq::<u64>::empty());
        assert(full =~= out@.map_values(|g: MajorGroup| g.major));
        assert(out@.map_values(|g: MajorGroup| group_view(g)) =~= summary(vs@));
    }
    out
}

/// What a listing of remote versions shows.
#[derive(Clone, Debug, PartialEq, Eq)]
pub enum RemoteListing {
    /// No version matched the filter, which is given back.
    NoMatch(String),
    /// The versions that matched the filter, newest first.
    Matches(Vec<SemanticVersion>),
    /// The summary of all versions.
    Groups(Vec<MajorGroup>),
}

/// What a listing of the versions `vs` shows, with or without a filter.
pub open spec fn listing_matches(vs: Seq<SemanticVersion>, filter: Option<Seq<char>>, l: RemoteListing) -> bool {
    match filter {
        Some(f) => {
            let fs = filtered(vs, split_on(f, '.'));
            if fs.len() == 0 {
                l matches RemoteListing::NoMatch(g) && g@ == f
            } else {
                l matches RemoteListing::Matches(m) && m@ == fs
            }
        },
        None => l matches RemoteListing::Groups(g) && g@.map_values(|x: MajorGroup| group_view(x)) == summary(vs),
    }
}

pub open spec fn opt_view(f: Option<&str>) -> Option<Seq<char>> {
    match f {
        Some(s) => Some(s@),
        None => None,
    }
}

/// The listing of the versions `vs`: the versions that match `filter`, or an
/// explicit no-match, or without a filter the summary.
pub fn listing_of(vs: &Vec<SemanticVersion>, filter: Option<&str>) -> (r: RemoteListing)
    ensures
        listing_matches(vs@, opt_view(filter), r),
{
    match filter {
        Some(f) => {
            let fs = filter_versions(vs, f);
            if fs.len() == 0 {
                RemoteListing::NoMatch(String::from_str(f))
            } else {
                RemoteListing::Matches(fs)
            }
        },
        None => RemoteListing::Groups(summarize(vs)),
    }
}

impl Manager {
    /// Lists the versions that the mirror's HTML directory listing links to,
    /// newest first: filtered by `filter` when one is given, else summarized.
    pub fn list_remote(&self, html: &str, filter: Option<&str>) -> (r: Result<RemoteListing, RnmError>)
        ensures
            r is Ok,
            r matches Ok(l) ==> exists|s: Seq<SemanticVersion>|
                #![trigger sorted_desc(s)]
                sorted_desc(s) && s.to_multiset() == versions_of(anchor_texts(html@)).to_multiset()
                    && listing_matches(s, opt_view(filter), l),
    {
        let mut vs = parse_listing(html)?;
        sort_descending(&mut vs);
        let l = listing_of(&vs, filter);
        assert(sorted_desc(vs@) && vs@.to_multiset() == versions_of(anchor_texts(html@)).to_multiset()
            && listing_matches(vs@, opt_view(filter), l));
        Ok(l)
    }
}

proof fn lemma_dec_len(n: nat)
    ensures
        dec(n).len() >= 1,
        n >= 10 ==> dec(n).len() >= 2,
    decreases n,
{
    if n >= 10 {
        lemma_dec_len(n / 10);
    }
}

proof fn lemma_dec_no_dot(n: nat)
    ensures
        !dec(n).contains('.'),
    decreases n,
{
    if n >= 10 {
        lemma_dec_no_dot(n / 10);
        let s = dec(n);
        if s.contains('.') {
            let k = choose|k: int| 0 <= k < s.len() && s[k] == '.';
            if k < s.len() - 1 {
                assert(dec(n / 10)[k] == '.');
            }
        }
    } else {
        assert(dec(n) == seq![digit(n)]);
        if dec(n).contains('.') {
            let k = choose|k: int| 0 <= k < dec(n).len() && dec(n)[k] == '.';
            assert(k == 0);
        }
    }
}

proof fn lemma_dec_injective(x: nat, y: nat)
    requires
        dec(x) == dec(y),
    ensures
        x == y,
    decreases x,
{
    lemma_dec_len(x);
    lemma_dec_len(y);
    if x >= 10 && y >= 10 {
        assert(dec(x).drop_last() == dec(x / 10));
        assert(dec(y).drop_last() == dec(y / 10));
        lemma_dec_injective(x / 10, y / 10);
        assert(dec(x).last() == digit(x % 10));
        assert(dec(y).last() == digit(y % 10));
    } else if x < 10 && y < 10 {
        assert(dec(x)[0] == digit(x));
        assert(dec(y)[0] == digit(y));
    }
}

/// The pieces of a filter of three decimal fields are those fields.
proof fn lemma_split_fields(a: u64, b: u64, c: u64)
    ensures
        split_on(dec(a as nat), '.') == seq![dec(a as nat)],
        split_on(dec(a as nat) + seq!['.'] + dec(b as nat), '.') == seq![dec(a as nat), dec(b as nat)],
        split_on(version_text(a, b, c), '.') == seq![dec(a as nat), dec(b as nat), dec(c as nat)],
{
    let (x, y, z) = (dec(a as nat), dec(b as nat), dec(c as nat));
    lemma_dec_no_dot(a as nat);
    lemma_dec_no_dot(b as nat);
    lemma_dec_no_dot(c as nat);
    lemma_split_single(x, '.');
    lemma_split_single(y, '.');
    lemma_split_single(z, '.');
    lemma_split_concat(x, y, '.');
    assert(seq![x] + seq![y] =~= seq![x, y]);
    let t = version_text(a, b, c);
    assert(t =~= x + seq!['.'] + (y + seq!['.'] + z));
    lemma_split_concat(y, z, '.');
    lemma_split_concat(x, y + seq!['.'] + z, '.');
    assert(seq![x] + (seq![y] + seq![z]) =~= seq![x, y, z]);
}

/// A filter `X`, `X.Y` or `X.Y.Z` of decimal numbers matches a version exactly
/// when the version's fields equal the given ones.
pub proof fn lemma_filter_fields(v: SemanticVersion, a: u64, b: u64, c: u64)
    ensures
        filter_matches(v, split_on(dec(a as nat), '.')) == (v.major == a),
        filter_matches(v, split_on(dec(a as nat) + seq!['.'] + dec(b as nat), '.')) == (v.major == a
            && v.minor == b),
        filter_matches(v, split_on(version_text(a, b, c), '.')) == (v == SemanticVersion {
            major: a,
            minor: b,
            patch: c,
        }),
{
    lemma_split_fields(a, b, c);
    if dec(v.major as nat) == dec(a as nat) {
        lemma_dec_injective(v.major as nat, a as nat);
    }
    if dec(v.minor as nat) == dec(b as nat) {
        lemma_dec_injective(v.minor as nat, b as nat);
    }
    if dec(v.patch as nat) == dec(c as nat) {
        lemma_dec_injective(v.patch as nat, c as nat);
    }
}

/// A filtered listing holds exactly the versions of the listing that match.
pub proof fn lemma_filtered_members(vs: Seq<SemanticVersion>, parts: Seq<Seq<char>>, x: SemanticVersion)
    ensures
        filtered(vs, parts).contains(x) == (vs.contains(x) && filter_matches(x, parts)),
    decreases vs.len(),
{
    if vs.len() > 0 {
        lemma_filtered_members(vs.drop_last(), parts, x);
        let r = filtered(vs.drop_last(), parts);
        assert(vs =~= vs.drop_last().push(vs.last()));
        if filter_matches(vs.last(), parts) {
            assert(r.push(vs.last()).contains(x) == (r.contains(x) || x == vs.last()));
        }
        assert(vs.contains(x) == (vs.drop_last().contains(x) || x == vs.last()));
    }
}

proof fn lemma_max_major_below(vs: Seq<SemanticVersion>, bound: int)
    ensures
        max_major_below(vs, bound) matches Some(m) ==> m < bound && (exists|i: int|
            0 <= i < vs.len() && #[trigger] vs[i].major == m),
        max_major_below(vs, bound) matches Some(m) ==> forall|i: int|
            0 <= i < vs.len() && #[trigger] vs[i].major < bound ==> vs[i].major <= m,
        max_major_below(vs, bound) is None ==> forall|i: int| 0 <= i < vs.len() ==> #[trigger] vs[i].major >= bound,
    decreases vs.len(),
{
    if vs.len() > 0 {
        let init = vs.drop_last();
        lemma_max_major_below(init, bound);
        let r = max_major_below(init, bound);
        let last = vs.last();
        assert forall|i: int| 0 <= i < init.len() implies #[trigger] vs[i] == init[i] by {}
        assert(vs[vs.len() - 1] == last);
        if let Some(m) = r {
            let w = choose|i: int| 0 <= i < init.len() && #[trigger] init[i].major == m;
            assert(vs[w].major == m);
        }
        match max_major_below(vs, bound) {
            Some(m) => {
                assert forall|i: int| 0 <= i < vs.len() && #[trigger] vs[i].major < bound implies vs[i].major <= m by {
                    if i < init.len() {
                        assert(init[i].major < bound);
                    }
                }
            },
            None => {
                assert forall|i: int| 0 <= i < vs.len() implies #[trigger] vs[i].major >= bound by {
                    if i < init.len() {
                        assert(init[i].major >= bound);
                    }
                }
            },
        }
    }
}

proof fn lemma_top_majors(vs: Seq<SemanticVersion>, bound: int, k: nat)
    ensures
        ({
            let t = top_majors(vs, bound, k);
            &&& t.len() <= k
            &&& forall|i: int, j: int| 0 <= i < j < t.len() ==> #[trigger] t[i] > #[trigger] t[j]
            &&& forall|i: int| 0 <= i < t.len() ==> #[trigger] t[i] < bound
            &&& forall|i: int| 0 <= i < t.len() ==> exists|j: int| 0 <= j < vs.len() && #[trigger] vs[j].major == #[trigger] t[i]
            &&& forall|j: int| 0 <= j < vs.len() && #[trigger] vs[j].major < bound ==> t.contains(vs[j].major) || (
                t.len() == k && (k == 0 || vs[j].major < t.last()))
        }),
    decreases k,
{
    lemma_max_major_below(vs, bound);
    if k > 0 {
        if let Some(m) = max_major_below(vs, bound) {
            lemma_top_majors(vs, m as int, (k - 1) as nat);
            let rest = top_majors(vs, m as int, (k - 1) as nat);
            let t = top_majors(vs, bound, k);
            assert(t == seq![m] + rest);
            assert forall|i: int| 0 <= i < t.len() implies exists|j: int| 0 <= j < vs.len() && #[trigger] vs[j].major == #[trigger] t[i] by {
                if i > 0 {
                    assert(t[i] == rest[i - 1]);
                }
            }
            assert forall|j: int| 0 <= j < vs.len() && #[trigger] vs[j].major < bound implies t.contains(vs[j].major) || (
                t.len() == k && (k == 0 || vs[j].major < t.last())) by {
                if vs[j].major == m {
                    assert(t[0] == m);
                } else {
                    assert(vs[j].major < m);
                    if rest.contains(vs[j].major) {
                        let q = choose|q: int| 0 <= q < rest.len() && rest[q] == vs[j].major;
                        assert(t[q + 1] == vs[j].major);
                    } else if rest.len() > 0 {
                        assert(t.last() == rest.last());
                    } else {
                        assert(t.last() == m);
                    }
                }
            }
            assert forall|i: int, j: int| 0 <= i < j < t.len() implies #[trigger] t[i] > #[trigger] t[j] by {
                assert(t[j] == rest[j - 1]);
                if i > 0 {
                    assert(t[i] == rest[i - 1]);
                }
            }
            assert forall|i: int| 0 <= i < t.len() implies #[trigger] t[i] < bound by {
                if i > 0 {
                    assert(t[i] == rest[i - 1]);
                }
            }
        }
    }
}

proof fn lemma_of_major(vs: Seq<SemanticVersion>, m: u64)
    ensures
        forall|i: int| 0 <= i < of_major(vs, m).len() ==> (#[trigger] of_major(vs, m)[i]).major == m,
    decreases vs.len(),
{
    if vs.len() > 0 {
        lemma_of_major(vs.drop_last(), m);
        let r = of_major(vs.drop_last(), m);
        if vs.last().major == m {
            assert forall|i: int| 0 <= i < r.len() implies #[trigger] r.push(vs.last())[i] == r[i] by {}
            assert(r.push(vs.last())[r.len() as int] == vs.last());
        }
    }
}

/// A summary holds at most three groups, for the largest major numbers, largest
/// first; every other major number is smaller than the last group's. Each group
/// shows at most five versions of its major number, and counts the ones left out,
/// which are only there when five are shown.
pub proof fn lemma_summary_shape(vs: Seq<SemanticVersion>)
    ensures
        ({
            let g = summary(vs);
            &&& g.len() <= 3
            &&& forall|i: int, j: int| 0 <= i < j < g.len() ==> #[trigger] g[i].0 > #[trigger] g[j].0
            &&& forall|j: int| 0 <= j < vs.len() ==> (exists|i: int| 0 <= i < g.len() && #[trigger] g[i].0
                == #[trigger] vs[j].major) || (g.len() == 3 && vs[j].major < g[2].0)
            &&& forall|i: int| 0 <= i < g.len() ==> {
                &&& (#[trigger] g[i]).1.len() <= 5
                &&& g[i].1.len() + g[i].2 == of_major(vs, g[i].0).len()
                &&& g[i].2 > 0 ==> g[i].1.len() == 5
                &&& forall|q: int| 0 <= q < g[i].1.len() ==> (#[trigger] g[i].1[q]).major == g[i].0
            }
        }),
{
    let bound = u64::MAX as int + 1;
    let t = top_majors(vs, bound, 3);
    lemma_top_majors(vs, bound, 3);
    let g = summary(vs);
    assert forall|i: int| 0 <= i < g.len() implies (#[trigger] g[i]).0 == t[i] by {}
    assert forall|j: int| 0 <= j < vs.len() implies (exists|i: int| 0 <= i < g.len() && #[trigger] g[i].0
        == #[trigger] vs[j].major) || (g.len() == 3 && vs[j].major < g[2].0) by {
        if t.contains(vs[j].major) {
            let i = choose|i: int| 0 <= i < t.len() && t[i] == vs[j].major;
            assert(g[i].0 == vs[j].major);
        }
    }
    assert forall|i: int| 0 <= i < g.len() implies forall|q: int| 0 <= q < (#[trigger] g[i]).1.len() ==> (#[trigger] g[i].1[q]).major == g[i].0 by {
        lemma_of_major(vs, t[i]);
    }
}

proof fn lemma_filtered_sorted(vs: Seq<SemanticVersion>, parts: Seq<Seq<char>>)
    requires
        sorted_desc(vs),
    ensures
        sorted_desc(filtered(vs, parts)),
    decreases vs.len(),
{
    if vs.len() > 0 {
        let init = vs.drop_last();
        assert(sorted_desc(init)) by {
            assert forall|i: int, j: int| 0 <= i < j < init.len() implies !newer(#[trigger] init[j], #[trigger] init[i]) by {
                assert(init[i] == vs[i] && init[j] == vs[j]);
            }
        }
        lemma_filtered_sorted(init, parts);
        let r = filtered(init, parts);
        if filter_matches(vs.last(), parts) {
            let f = r.push(vs.last());
            assert forall|i: int, j: int| 0 <= i < j < f.len() implies !newer(#[trigger] f[j], #[trigger] f[i]) by {
                if j == r.len() {
                    lemma_filtered_members(init, parts, r[i]);
                    assert(r.contains(r[i]));
                    let k = choose|k: int| 0 <= k < init.len() && init[k] == r[i];
                    assert(vs[k] == r[i]);
                    assert(vs[vs.len() - 1] == vs.last());
                } else {
                    assert(f[i] == r[i] && f[j] == r[j]);
                }
            }
        }
    }
}

/// A filtered listing of versions sorted newest first is sorted newest first
/// and holds exactly the versions that match the filter; when none matches,
/// the listing says so.
pub proof fn lemma_filtered_listing(vs: Seq<SemanticVersion>, f: Seq<char>, l: RemoteListing, x: SemanticVersion)
    requires
        sorted_desc(vs),
        listing_matches(vs, Some(f), l),
    ensures
        l is NoMatch ==> !(vs.contains(x) && filter_matches(x, split_on(f, '.'))),
        l matches RemoteListing::Matches(m) ==> sorted_desc(m@) && (m@.contains(x) == (vs.contains(x)
            && filter_matches(x, split_on(f, '.')))),
{
    lemma_filtered_members(vs, split_on(f, '.'), x);
    lemma_filtered_sorted(vs, split_on(f, '.'));
    if filtered(vs, split_on(f, '.')).len() == 0 {
        if vs.contains(x) && filter_matches(x, split_on(f, '.')) {
            assert(filtered(vs, split_on(f, '.')).contains(x));
        }
    }
}

} // verus!
