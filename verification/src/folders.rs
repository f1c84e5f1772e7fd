//! The directories that host applications scan for extensions.
//!
//! The first search path is the user's own directory, into which extensions
//! are installed. On some platforms system-wide directories follow it; they
//! are searched only where they exist.

use crate::text::{chars_of, is_word};
use vstd::prelude::*;
use vstd::string::StringExecFns;

verus! {

/// The operating system the library runs on.
#[derive(Clone, Copy, Debug)]
pub enum Platform {
    Windows,
    MacOs,
    /// Any other system: nothing is installed there but into a scratch directory.
    Other,
}

/// The environment variables that decide where the user's directory lies.
/// A variable that is not set, or does not hold text, is `None`.
#[derive(Debug)]
pub struct Environment {
    /// `APPDATA`
    pub appdata: Option<String>,
    /// `USERPROFILE`
    pub userprofile: Option<String>,
    /// `HOME`
    pub home: Option<String>,
}

/// The mathematical value of an [`Environment`].
pub struct EnvironmentView {
    pub appdata: Option<Seq<char>>,
    pub userprofile: Option<Seq<char>>,
    pub home: Option<Seq<char>>,
}

/// The text that an optional variable holds.
pub open spec fn variable(o: Option<String>) -> Option<Seq<char>> {
    match o {
        Some(s) => Some(s@),
        None => None,
    }
}

impl View for Environment {
    type V = EnvironmentView;

    open spec fn view(&self) -> EnvironmentView {
        EnvironmentView {
            appdata: variable(self.appdata),
            userprofile: variable(self.userprofile),
            home: variable(self.home),
        }
    }
}

/// Who owns a search path.
#[derive(Clone, Copy, Debug)]
pub enum Tier {
    /// The user's own directory: writable, and searched first.
    User,
    /// A system-wide directory, which may hold what the host brought along.
    System,
}

/// A directory that is searched for extensions.
#[derive(Debug)]
pub struct SearchPath {
    pub dir: String,
    pub tier: Tier,
}

/// The mathematical value of a [`SearchPath`].
pub struct SearchPathView {
    pub dir: Seq<char>,
    pub tier: Tier,
}

impl View for SearchPath {
    type V = SearchPathView;

    open spec fn view(&self) -> SearchPathView {
        SearchPathView { dir: self.dir@, tier: self.tier }
    }
}

/// The values of a list of search paths.
pub open spec fn paths_of(paths: Seq<SearchPath>) -> Seq<SearchPathView> {
    paths.map_values(|p: SearchPath| p@)
}

/// The texts of a list of strings.
pub open spec fn texts_of(list: Seq<String>) -> Seq<Seq<char>> {
    list.map_values(|s: String| s@)
}

/// The path `part` below the directory `base`, as `std::path::Path::join`
/// forms it on this platform.
pub uninterp spec fn joined_path(base: Seq<char>, part: Seq<char>) -> Seq<char>;

/// Whether two texts denote the same path, as `std::path::Path` compares them.
pub uninterp spec fn same_path(a: Seq<char>, b: Seq<char>) -> bool;

/// `std::path::Path::join`, from text to text. Both arguments are valid
/// Unicode, so the joined path is too, and turning it back into a `String`
/// loses nothing. The result depends on the two texts alone and is given the
/// name [`joined_path`].
#[verifier::external_body]
pub(crate) fn join_path(base: &str, part: &str) -> (r: String)
    ensures
        r@ == joined_path(base@, part@),
{
    std::path::Path::new(base).join(part).to_string_lossy().into_owned()
}

/// The equality of `std::path::Path`, which compares two paths component by
/// component. The result depends on the two texts alone and is given the name
/// [`same_path`].
#[verifier::external_body]
pub(crate) fn is_same_path(a: &str, b: &str) -> (r: bool)
    ensures
        r == same_path(a@, b@),
{
    std::path::Path::new(a) == std::path::Path::new(b)
}

/// `c` divides a path into its components on some platform.
pub open spec fn divides(c: char) -> bool {
    c == '/' || c == '\\'
}

/// `name` is a single component of a path that names something of its own:
/// it is not empty, it is neither `.` nor `..`, it holds no character that
/// divides a path, and it does not begin with the name of a drive. Only such
/// a name can be the name of a directory directly below another.
pub open spec fn component(name: Seq<char>) -> bool {
    &&& name.len() > 0
    &&& name != "."@
    &&& name != ".."@
    &&& name.len() > 1 ==> name[1] != ':'
    &&& forall|i: int| 0 <= i < name.len() ==> !divides(#[trigger] name[i])
}

/// The component `..` stands in `name` at position `i`.
pub open spec fn climbs_at(name: Seq<char>, i: int) -> bool {
    &&& 0 <= i
    &&& i + 2 <= name.len()
    &&& name[i] == '.'
    &&& name[i + 1] == '.'
    &&& (i == 0 || divides(name[i - 1]))
    &&& (i + 2 == name.len() || divides(name[i + 2]))
}

/// `name`, taken as a path below a directory, stays below it: it does not
/// begin at a root or at a drive, and none of its components is `..`. A
/// backslash counts as dividing components wherever the library runs.
pub open spec fn contained(name: Seq<char>) -> bool {
    &&& name.len() > 0 ==> !divides(name[0])
    &&& name.len() > 1 ==> name[1] != ':'
    &&& forall|i: int| !climbs_at(name, i)
}

/// Whether `c` divides a path into its components.
pub fn is_divider(c: char) -> (r: bool)
    ensures
        r == divides(c),
{
    c == '/' || c == '\\'
}

/// Whether `name` is a single component of a path that names something of
/// its own.
pub fn is_component(name: &str) -> (r: bool)
    ensures
        r == component(name@),
{
    let chars = chars_of(name);
    if chars.len() == 0 || is_word(chars.as_slice(), ".") || is_word(chars.as_slice(), "..") {
        return false;
    }
    if chars.len() > 1 && chars[1] == ':' {
        return false;
    }
    let mut i: usize = 0;
    while i < chars.len()
        invariant
            i <= chars@.len(),
            chars@ == name@,
            forall|j: int| 0 <= j < i ==> !divides(#[trigger] chars@[j]),
        decreases chars@.len() - i,
    {
        if is_divider(chars[i]) {
            assert(divides(name@[i as int]));
            return false;
        }
        i += 1;
    }
    true
}

/// Whether `name`, taken as a path below a directory, stays below it.
pub fn is_contained(name: &str) -> (r: bool)
    ensures
        r == contained(name@),
{
    let chars = chars_of(name);
    let n = chars.len();
    if n > 0 && is_divider(chars[0]) {
        return false;
    }
    if n > 1 && chars[1] == ':' {
        return false;
    }
    let mut i: usize = 0;
    while i < n
        invariant
            n == chars@.len(),
            chars@ == name@,
            i <= n,
            forall|j: int| j < i ==> !climbs_at(chars@, j),
        decreases n - i,
    {
        if n - i >= 2 && chars[i] == '.' && chars[i + 1] == '.' && (i == 0 || is_divider(
            chars[i - 1],
        )) && (n - i == 2 || is_divider(chars[i + 2])) {
            assert(climbs_at(chars@, i as int));
            return false;
        }
        i += 1;
    }
    true
}

/// The directory below which Windows keeps a user's application data.
pub open spec fn roaming_folder(env: EnvironmentView) -> Seq<char> {
    match env.appdata {
        Some(dir) => dir,
        None => match env.userprofile {
            Some(profile) => profile + "\\AppData\\Roaming"@,
            None => "C:\\Users\\Default\\AppData\\Roaming"@,
        },
    }
}

/// The user's own extensions directory.
pub open spec fn extensions_folder(platform: Platform, env: EnvironmentView) -> Seq<char> {
    match platform {
        Platform::Windows => joined_path(
            joined_path(joined_path(roaming_folder(env), "Adobe"@), "CEP"@),
            "extensions"@,
        ),
        Platform::MacOs => joined_path(
            joined_path(
                joined_path(
                    joined_path(
                        joined_path(
                            match env.home {
                                Some(home) => home,
                                None => "~"@,
                            },
                            "Library"@,
                        ),
                        "Application Support"@,
                    ),
                    "Adobe"@,
                ),
                "CEP"@,
            ),
            "extensions"@,
        ),
        Platform::Other => "/tmp/cep_extensions"@,
    }
}

/// The system-wide directories that may hold extensions, in the order in
/// which they are searched.
pub open spec fn system_candidates(platform: Platform) -> Seq<Seq<char>> {
    match platform {
        Platform::Windows => seq![
            "C:\\Program Files (x86)\\Common Files\\Adobe\\CEP\\extensions"@,
            "C:\\Program Files\\Common Files\\Adobe\\CEP\\extensions"@,
        ],
        Platform::MacOs => seq!["/Library/Application Support/Adobe/CEP/extensions"@],
        Platform::Other => Seq::<Seq<char>>::empty(),
    }
}

/// `dir` is already among `paths`.
pub open spec fn listed(paths: Seq<SearchPathView>, dir: Seq<char>) -> bool {
    exists|k: int| 0 <= k < paths.len() && same_path(#[trigger] paths[k].dir, dir)
}

/// The search paths: the user's directory first, then every candidate that
/// is present and not yet listed, in the order of the candidates. The
/// candidate at position `i` is present where `present[i]` says so; one
/// without an entry in `present` counts as absent.
pub open spec fn search_paths(
    primary: Seq<char>,
    candidates: Seq<Seq<char>>,
    present: Seq<bool>,
) -> Seq<SearchPathView>
    decreases candidates.len(),
{
    if candidates.len() == 0 {
        seq![SearchPathView { dir: primary, tier: Tier::User }]
    } else {
        let before = search_paths(primary, candidates.drop_last(), present);
        let last = candidates.len() - 1;
        if last < present.len() && present[last] && !listed(before, candidates.last()) {
            before.push(SearchPathView { dir: candidates.last(), tier: Tier::System })
        } else {
            before
        }
    }
}

/// The user's own extensions directory, into which extensions are installed.
pub fn get_extensions_folder(platform: Platform, env: &Environment) -> (r: String)
    ensures
        r@ == extensions_folder(platform, env@),
{
    match platform {
        Platform::Windows => {
            let roaming = match &env.appdata {
                Some(dir) => dir.clone(),
                None => match &env.userprofile {
                    Some(profile) => profile.clone().concat("\\AppData\\Roaming"),
                    None => "C:\\Users\\Default\\AppData\\Roaming".to_string(),
                },
            };
            let adobe = join_path(roaming.as_str(), "Adobe");
            let cep = join_path(adobe.as_str(), "CEP");
            join_path(cep.as_str(), "extensions")
        },
        Platform::MacOs => {
            let home = match &env.home {
                Some(home) => home.clone(),
                None => "~".to_string(),
            };
            let library = join_path(home.as_str(), "Library");
            let support = join_path(library.as_str(), "Application Support");
            let adobe = join_path(support.as_str(), "Adobe");
            let cep = join_path(adobe.as_str(), "CEP");
            join_path(cep.as_str(), "extensions")
        },
        Platform::Other => "/tmp/cep_extensions".to_string(),
    }
}

/// The system-wide directories that may hold extensions.
pub fn system_folders(platform: Platform) -> (r: Vec<String>)
    ensures
        texts_of(r@) == system_candidates(platform),
{
    let mut out: Vec<String> = Vec::new();
    match platform {
        Platform::Windows => {
            out.push("C:\\Program Files (x86)\\Common Files\\Adobe\\CEP\\extensions".to_string());
            out.push("C:\\Program Files\\Common Files\\Adobe\\CEP\\extensions".to_string());
        },
        Platform::MacOs => {
            out.push("/Library/Application Support/Adobe/CEP/extensions".to_string());
        },
        Platform::Other => {},
    }
    assert(texts_of(out@) =~= system_candidates(platform));
    out
}

/// Whether `dir` is already among `paths`.
pub fn is_listed(paths: &Vec<SearchPath>, dir: &str) -> (r: bool)
    ensures
        r == listed(paths_of(paths@), dir@),
{
    let mut k: usize = 0;
    while k < paths.len()
        invariant
            k <= paths@.len(),
            forall|j: int| 0 <= j < k ==> !same_path(#[trigger] paths_of(paths@)[j].dir, dir@),
        decreases paths@.len() - k,
    {
        if is_same_path(paths[k].dir.as_str(), dir) {
            assert(paths_of(paths@)[k as int].dir == paths@[k as int].dir@);
            return true;
        }
        assert(paths_of(paths@)[k as int].dir == paths@[k as int].dir@);
        k += 1;
    }
    false
}

/// All directories to search, the user's first. `present` says of each
/// system-wide directory of [`system_folders`], by its position, whether it
/// exists on disk.
pub fn get_all_extension_folders(
    platform: Platform,
    env: &Environment,
    present: &Vec<bool>,
) -> (r: Vec<SearchPath>)
    ensures
        paths_of(r@) == search_paths(
            extensions_folder(platform, env@),
            system_candidates(platform),
            present@,
        ),
        r@.len() >= 1,
        r@[0]@ == (SearchPathView { dir: extensions_folder(platform, env@), tier: Tier::User }),
{
    let primary = get_extensions_folder(platform, env);
    let candidates = system_folders(platform);
    let ghost all = texts_of(candidates@);
    let mut out: Vec<SearchPath> = Vec::new();
    out.push(SearchPath { dir: primary, tier: Tier::User });
    assert(all.take(0) =~= Seq::<Seq<char>>::empty());
    assert(paths_of(out@) =~= search_paths(
        extensions_folder(platform, env@),
        all.take(0),
        present@,
    ));
    let mut i: usize = 0;
    while i < candidates.len()
        invariant
            i <= candidates@.len(),
            all == texts_of(candidates@),
            out@.len() >= 1,
            out@[0]@ == (SearchPathView {
                dir: extensions_folder(platform, env@),
                tier: Tier::User,
            }),
            paths_of(out@) == search_paths(
                extensions_folder(platform, env@),
                all.take(i as int),
                present@,
            ),
        decreases candidates@.len() - i,
    {
        assert(all.take(i + 1).drop_last() =~= all.take(i as int));
        assert(all.take(i + 1).last() == candidates@[i as int]@);
        if i < present.len() && present[i] && !is_listed(&out, candidates[i].as_str()) {
            let ghost before = out@;
            out.push(SearchPath { dir: candidates[i].clone(), tier: Tier::System });
            assert(paths_of(out@) =~= paths_of(before).push(
                SearchPathView { dir: candidates@[i as int]@, tier: Tier::System },
            ));
        }
        i += 1;
    }
    assert(all.take(i as int) =~= all);
    out
}

/// The user's directory is always the first search path, whatever exists.
pub proof fn lemma_user_path_first(
    primary: Seq<char>,
    candidates: Seq<Seq<char>>,
    present: Seq<bool>,
)
    ensures
        search_paths(primary, candidates, present).len() >= 1,
        search_paths(primary, candidates, present)[0] == (SearchPathView {
            dir: primary,
            tier: Tier::User,
        }),
        forall|k: int|
            1 <= k < search_paths(primary, candidates, present).len() ==> (#[trigger] search_paths(
                primary,
                candidates,
                present,
            )[k]).tier is System,
    decreases candidates.len(),
{
    if candidates.len() > 0 {
        lemma_user_path_first(primary, candidates.drop_last(), present);
    }
}

/// No two search paths denote the same directory.
pub proof fn lemma_search_paths_distinct(
    primary: Seq<char>,
    candidates: Seq<Seq<char>>,
    present: Seq<bool>,
    i: int,
    j: int,
)
    requires
        0 <= i < j < search_paths(primary, candidates, present).len(),
    ensures
        !same_path(
            search_paths(primary, candidates, present)[i].dir,
            search_paths(primary, candidates, present)[j].dir,
        ),
    decreases candidates.len(),
{
    if candidates.len() > 0 {
        let before = search_paths(primary, candidates.drop_last(), present);
        if j < before.len() {
            lemma_search_paths_distinct(primary, candidates.drop_last(), present, i, j);
        } else {
            assert(!listed(before, candidates.last()));
        }
    }
}

} // verus!
