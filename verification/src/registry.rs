//! Discovery of the installed extensions.
//!
//! Discovery works on a record of what was found on disk: for every search
//! path, in order, the directories in it, each with the text of its
//! descriptor and with what is known of its icon files. Nothing here touches
//! the disk.

use crate::folders::{join_path, joined_path, Tier};
use crate::manifest::{descriptor, parse_manifest_xml, ExtensionInfo, ExtensionInfoView};
use crate::text::{begins_with, chars_of, lower, lowercase, starts_with};
use vstd::multiset::Multiset;
use vstd::prelude::*;
use vstd::string::StringSliceAdditionalSpecFns;
use vstd::utf8::encode_utf8;

verus! {

/// A directory found in a search path.
#[derive(Debug)]
pub struct Candidate {
    /// The directory itself.
    pub dir: String,
    /// The text of the descriptor in it; `None` where the directory holds
    /// none that can be read.
    pub manifest: Option<String>,
    /// Which of the icon files of [`icon_files`] exist, by position.
    pub icons: Vec<bool>,
}

/// The mathematical value of a [`Candidate`].
pub struct CandidateView {
    pub dir: Seq<char>,
    pub manifest: Option<Seq<char>>,
    pub icons: Seq<bool>,
}

impl View for Candidate {
    type V = CandidateView;

    open spec fn view(&self) -> CandidateView {
        CandidateView {
            dir: self.dir@,
            manifest: match self.manifest {
                Some(t) => Some(t@),
                None => None,
            },
            icons: self.icons@,
        }
    }
}

/// What was found in one search path.
#[derive(Debug)]
pub struct FolderScan {
    pub tier: Tier,
    /// The directories in it, in the order in which they were listed.
    pub found: Vec<Candidate>,
}

/// The mathematical value of a [`FolderScan`].
pub struct FolderScanView {
    pub tier: Tier,
    pub found: Seq<CandidateView>,
}

/// The values of a list of candidates.
pub open spec fn candidates_of(list: Seq<Candidate>) -> Seq<CandidateView> {
    list.map_values(|c: Candidate| c@)
}

impl View for FolderScan {
    type V = FolderScanView;

    open spec fn view(&self) -> FolderScanView {
        FolderScanView { tier: self.tier, found: candidates_of(self.found@) }
    }
}

/// The values of a list of scans.
pub open spec fn scans_of(list: Seq<FolderScan>) -> Seq<FolderScanView> {
    list.map_values(|s: FolderScan| s@)
}

/// The values of a list of extensions.
pub open spec fn infos_of(list: Seq<ExtensionInfo>) -> Seq<ExtensionInfoView> {
    list.map_values(|e: ExtensionInfo| e@)
}

/// An identifier in lower case lies in a namespace of the host's own
/// extensions.
pub open spec fn builtin_prefix(lower: Seq<char>) -> bool {
    ||| begins_with(lower, "com.adobe.ccx"@)
    ||| begins_with(lower, "com.adobe.cep"@)
    ||| begins_with(lower, "com.adobe.exchange"@)
    ||| begins_with(lower, "com.adobe.exman"@)
    ||| begins_with(lower, "com.adobe.indesign.cc.extensions"@)
    ||| begins_with(lower, "com.adobe.aam"@)
    ||| begins_with(lower, "com.adobe.acrobat"@)
    ||| begins_with(lower, "com.adobe.bridge"@)
    ||| begins_with(lower, "com.adobe.dreamweaver"@)
    ||| begins_with(lower, "com.adobe.illustrator.cc.extensions"@)
    ||| begins_with(lower, "com.adobe.premiere.extension"@)
    ||| begins_with(lower, "com.adobe.phonegap"@)
    ||| begins_with(lower, "com.adobe.validation"@)
}

/// The names under which an extension may keep its icon, in the order in
/// which they are tried.
pub open spec fn icon_names() -> Seq<Seq<char>> {
    seq!["icon.png"@, "Icon.png"@, "icon.svg"@, "logo.png"@]
}

/// The position of the first icon name whose file exists.
pub open spec fn icon_choice(icons: Seq<bool>) -> Option<int> {
    if icons.len() > 0 && icons[0] {
        Some(0)
    } else if icons.len() > 1 && icons[1] {
        Some(1)
    } else if icons.len() > 2 && icons[2] {
        Some(2)
    } else if icons.len() > 3 && icons[3] {
        Some(3)
    } else {
        None
    }
}

/// The icon file of the extension in `dir`.
pub open spec fn icon_of(dir: Seq<char>, icons: Seq<bool>) -> Option<Seq<char>> {
    match icon_choice(icons) {
        Some(i) => Some(joined_path(dir, icon_names()[i])),
        None => None,
    }
}

/// Where the descriptor of the extension in `dir` lies.
pub open spec fn manifest_location(dir: Seq<char>) -> Seq<char> {
    joined_path(joined_path(dir, "CSXS"@), "manifest.xml"@)
}

/// The extension that a candidate stands for: its descriptor must parse, and
/// an identifier of the host's own is accepted from the user's directory
/// alone. The extension carries its directory and its icon.
pub open spec fn accepted(tier: Tier, c: CandidateView) -> Option<ExtensionInfoView> {
    match c.manifest {
        None => None,
        Some(text) => match descriptor(text) {
            Err(_) => None,
            Ok(info) => {
                if tier is System && builtin_prefix(lowercase(info.id)) {
                    None
                } else {
                    Some(
                        ExtensionInfoView {
                            id: info.id,
                            name: info.name,
                            version: info.version,
                            description: info.description,
                            author: info.author,
                            host_list: info.host_list,
                            cep_version: info.cep_version,
                            install_path: Some(c.dir),
                            icon_path: icon_of(c.dir, c.icons),
                        },
                    )
                }
            },
        },
    }
}

/// `id` is the identifier of one of `list`.
pub open spec fn known(list: Seq<ExtensionInfoView>, id: Seq<char>) -> bool {
    exists|k: int| 0 <= k < list.len() && (#[trigger] list[k]).id == id
}

/// What `found` adds to the extensions discovered `before`: every accepted
/// candidate whose identifier is not known yet, in order.
pub open spec fn discovered_in(
    before: Seq<ExtensionInfoView>,
    tier: Tier,
    found: Seq<CandidateView>,
) -> Seq<ExtensionInfoView>
    decreases found.len(),
{
    if found.len() == 0 {
        before
    } else {
        let so_far = discovered_in(before, tier, found.drop_last());
        match accepted(tier, found.last()) {
            Some(e) => if known(so_far, e.id) {
                so_far
            } else {
                so_far.push(e)
            },
            None => so_far,
        }
    }
}

/// The extensions discovered in `scans`, in the order of discovery: of
/// several with one identifier the first alone counts.
pub open spec fn discovered(scans: Seq<FolderScanView>) -> Seq<ExtensionInfoView>
    decreases scans.len(),
{
    if scans.len() == 0 {
        Seq::<ExtensionInfoView>::empty()
    } else {
        discovered_in(discovered(scans.drop_last()), scans.last().tier, scans.last().found)
    }
}

/// `a` comes no later than `b` where byte sequences are compared position
/// by position and a proper prefix comes first.
pub open spec fn bytes_le(a: Seq<u8>, b: Seq<u8>) -> bool
    decreases a.len(),
{
    if a.len() == 0 {
        true
    } else if b.len() == 0 {
        false
    } else if a[0] != b[0] {
        a[0] < b[0]
    } else {
        bytes_le(a.drop_first(), b.drop_first())
    }
}

/// The order of names: that of their UTF-8 encodings, which is the order of
/// `str`.
pub open spec fn name_le(a: Seq<char>, b: Seq<char>) -> bool {
    bytes_le(encode_utf8(a), encode_utf8(b))
}

/// Every extension comes no later by name than those behind it.
pub open spec fn sorted_by_name(list: Seq<ExtensionInfoView>) -> bool {
    forall|i: int, j: int| 0 <= i < j < list.len() ==> name_le(list[i].name, list[j].name)
}

/// Of two byte sequences one comes no later than the other.
pub proof fn lemma_bytes_le_total(a: Seq<u8>, b: Seq<u8>)
    ensures
        bytes_le(a, b) || bytes_le(b, a),
    decreases a.len(),
{
    if a.len() > 0 && b.len() > 0 && a[0] == b[0] {
        lemma_bytes_le_total(a.drop_first(), b.drop_first());
    }
}

/// The order of byte sequences is transitive.
pub proof fn lemma_bytes_le_transitive(a: Seq<u8>, b: Seq<u8>, c: Seq<u8>)
    requires
        bytes_le(a, b),
        bytes_le(b, c),
    ensures
        bytes_le(a, c),
    decreases a.len(),
{
    if a.len() > 0 && b.len() > 0 && c.len() > 0 && a[0] == b[0] && b[0] == c[0] {
        lemma_bytes_le_transitive(a.drop_first(), b.drop_first(), c.drop_first());
    }
}

/// Inserting into a sequence adds one element to what it holds.
pub proof fn lemma_insert_adds_one(s: Seq<ExtensionInfoView>, i: int, e: ExtensionInfoView)
    requires
        0 <= i <= s.len(),
    ensures
        s.insert(i, e).to_multiset() == s.to_multiset().insert(e),
{
    let t = s.insert(i, e);
    assert(t.remove(i) =~= s);
    assert(t[i] == e);
    vstd::seq_lib::to_multiset_remove(t, i);
    t.to_multiset_ensures();
    assert(t.contains(e));
    assert(t.to_multiset() =~= s.to_multiset().insert(e));
}

/// Whether `a` comes no later than `b`.
pub fn bytes_at_most(a: &[u8], b: &[u8]) -> (r: bool)
    ensures
        r == bytes_le(a@, b@),
{
    let mut k: usize = 0;
    assert(a@.skip(0) =~= a@);
    assert(b@.skip(0) =~= b@);
    while k < a.len() && k < b.len()
        invariant
            k <= a@.len(),
            k <= b@.len(),
            bytes_le(a@, b@) == bytes_le(a@.skip(k as int), b@.skip(k as int)),
        decreases a@.len() - k,
    {
        assert(a@.skip(k as int)[0] == a@[k as int]);
        assert(b@.skip(k as int)[0] == b@[k as int]);
        if a[k] < b[k] {
            return true;
        }
        if a[k] > b[k] {
            return false;
        }
        assert(a@.skip(k as int).drop_first() =~= a@.skip(k + 1));
        assert(b@.skip(k as int).drop_first() =~= b@.skip(k + 1));
        k += 1;
    }
    k == a.len()
}

/// Whether the name `a` comes no later than the name `b`.
pub fn name_at_most(a: &str, b: &str) -> (r: bool)
    ensures
        r == name_le(a@, b@),
{
    bytes_at_most(a.as_bytes(), b.as_bytes())
}

/// Whether an identifier in lower case lies in a namespace of the host's own
/// extensions.
pub fn has_builtin_prefix(lower: &[char]) -> (r: bool)
    ensures
        r == builtin_prefix(lower@),
{
    begins(lower, "com.adobe.ccx") || begins(lower, "com.adobe.cep") || begins(
        lower,
        "com.adobe.exchange",
    ) || begins(lower, "com.adobe.exman") || begins(lower, "com.adobe.indesign.cc.extensions")
        || begins(lower, "com.adobe.aam") || begins(lower, "com.adobe.acrobat") || begins(
        lower,
        "com.adobe.bridge",
    ) || begins(lower, "com.adobe.dreamweaver") || begins(
        lower,
        "com.adobe.illustrator.cc.extensions",
    ) || begins(lower, "com.adobe.premiere.extension") || begins(lower, "com.adobe.phonegap")
        || begins(lower, "com.adobe.validation")
}

fn begins(text: &[char], prefix: &str) -> (r: bool)
    ensures
        r == begins_with(text@, prefix@),
{
    let p = chars_of(prefix);
    starts_with(text, p.as_slice())
}

/// Whether the identifier `id`, in any letter case, lies in a namespace of
/// the host's own extensions.
pub fn is_adobe_builtin(id: &str) -> (r: bool)
    ensures
        r == builtin_prefix(lowercase(id@)),
{
    let chars = chars_of(id);
    let folded = lower(chars.as_slice());
    has_builtin_prefix(folded.as_slice())
}

/// Where the descriptor of the extension in `dir` lies.
pub fn manifest_file(dir: &str) -> (r: String)
    ensures
        r@ == manifest_location(dir@),
{
    let sub = join_path(dir, "CSXS");
    join_path(sub.as_str(), "manifest.xml")
}

/// The files that may be the icon of the extension in `dir`, in the order in
/// which they are tried.
pub fn icon_files(dir: &str) -> (r: Vec<String>)
    ensures
        r@.len() == icon_names().len(),
        forall|i: int|
            0 <= i < r@.len() ==> (#[trigger] r@[i])@ == joined_path(dir@, icon_names()[i]),
{
    let mut out: Vec<String> = Vec::new();
    out.push(join_path(dir, "icon.png"));
    out.push(join_path(dir, "Icon.png"));
    out.push(join_path(dir, "icon.svg"));
    out.push(join_path(dir, "logo.png"));
    out
}

/// The icon file of the extension in `dir`: the first of [`icon_files`] of
/// which `icons` says that it exists.
pub fn choose_icon(dir: &str, icons: &Vec<bool>) -> (r: Option<String>)
    ensures
        match r {
            Some(p) => icon_of(dir@, icons@) == Some(p@),
            None => icon_of(dir@, icons@) is None,
        },
{
    if icons.len() > 0 && icons[0] {
        Some(join_path(dir, "icon.png"))
    } else if icons.len() > 1 && icons[1] {
        Some(join_path(dir, "Icon.png"))
    } else if icons.len() > 2 && icons[2] {
        Some(join_path(dir, "icon.svg"))
    } else if icons.len() > 3 && icons[3] {
        Some(join_path(dir, "logo.png"))
    } else {
        None
    }
}

/// The extension that the candidate `c` stands for, if it is accepted.
pub fn accept(tier: Tier, c: &Candidate) -> (r: Option<ExtensionInfo>)
    ensures
        match r {
            Some(e) => accepted(tier, c@) == Some(e@) && e.well_formed(),
            None => accepted(tier, c@) is None,
        },
{
    match &c.manifest {
        None => None,
        Some(text) => match parse_manifest_xml(text.as_str()) {
            Err(_) => None,
            Ok(info) => {
                let from_system = match tier {
                    Tier::System => true,
                    Tier::User => false,
                };
                if from_system && is_adobe_builtin(info.id.as_str()) {
                    None
                } else {
                    let mut e = info;
                    e.install_path = Some(c.dir.clone());
                    e.icon_path = choose_icon(c.dir.as_str(), &c.icons);
                    Some(e)
                }
            },
        },
    }
}

/// Whether `id` is the identifier of one of `list`.
pub fn is_known(list: &Vec<ExtensionInfo>, id: &String) -> (r: bool)
    ensures
        r == known(infos_of(list@), id@),
{
    let mut k: usize = 0;
    while k < list.len()
        invariant
            k <= list@.len(),
            forall|j: int| 0 <= j < k ==> (#[trigger] infos_of(list@)[j]).id != id@,
        decreases list@.len() - k,
    {
        assert(infos_of(list@)[k as int].id == list@[k as int].id@);
        if list[k].id == *id {
            return true;
        }
        k += 1;
    }
    false
}

/// The extensions of `list`, sorted by name.
pub fn sort_by_name(list: Vec<ExtensionInfo>) -> (r: Vec<ExtensionInfo>)
    ensures
        sorted_by_name(infos_of(r@)),
        infos_of(r@).to_multiset() == infos_of(list@).to_multiset(),
{
    let mut rest = list;
    let mut out: Vec<ExtensionInfo> = Vec::new();
    assert(infos_of(out@) =~= Seq::<ExtensionInfoView>::empty());
    assert(infos_of(out@).to_multiset() =~= Multiset::<ExtensionInfoView>::empty()) by {
        infos_of(out@).to_multiset_ensures();
    }
    assert(infos_of(out@).to_multiset().add(infos_of(rest@).to_multiset()) =~= infos_of(
        list@,
    ).to_multiset());
    while rest.len() > 0
        invariant
            sorted_by_name(infos_of(out@)),
            infos_of(out@).to_multiset().add(infos_of(rest@).to_multiset()) == infos_of(
                list@,
            ).to_multiset(),
        decreases rest@.len(),
    {
        let ghost rest_before = rest@;
        let ghost out_before = out@;
        let item = rest.pop().unwrap();
        proof {
            assert(infos_of(rest_before) =~= infos_of(rest@).push(item@));
            infos_of(rest@).to_multiset_ensures();
        }
        let mut pos: usize = 0;
        while pos < out.len() && !name_at_most(item.name.as_str(), out[pos].name.as_str())
            invariant
                pos <= out@.len(),
                out@ == out_before,
                forall|j: int|
                    0 <= j < pos ==> name_le((#[trigger] infos_of(out@)[j]).name, item@.name),
            decreases out@.len() - pos,
        {
            proof {
                assert(infos_of(out@)[pos as int].name == out@[pos as int].name@);
                lemma_bytes_le_total(
                    encode_utf8(item@.name),
                    encode_utf8(out@[pos as int].name@),
                );
            }
            pos += 1;
        }
        proof {
            let before = infos_of(out_before);
            let after = before.insert(pos as int, item@);
            assert forall|i: int, j: int| 0 <= i < j < after.len() implies name_le(
                after[i].name,
                after[j].name,
            ) by {
                if j == pos {
                    assert(after[i] == before[i]);
                } else if i == pos {
                    assert(after[j] == before[j - 1]);
                    assert(before[pos as int].name == out_before[pos as int].name@);
                    if j - 1 > pos {
                        assert(sorted_by_name(before));
                        assert(name_le(before[pos as int].name, before[j - 1].name));
                        lemma_bytes_le_transitive(
                            encode_utf8(item@.name),
                            encode_utf8(before[pos as int].name),
                            encode_utf8(before[j - 1].name),
                        );
                    }
                } else {
                    let bi = if i < pos {
                        i
                    } else {
                        i - 1
                    };
                    let bj = if j < pos {
                        j
                    } else {
                        j - 1
                    };
                    assert(after[i] == before[bi]);
                    assert(after[j] == before[bj]);
                }
            }
            lemma_insert_adds_one(before, pos as int, item@);
        }
        out.insert(pos, item);
        assert(infos_of(out@) =~= infos_of(out_before).insert(pos as int, item@));
        assert(infos_of(out@).to_multiset().add(infos_of(rest@).to_multiset()) =~= infos_of(
            out_before,
        ).to_multiset().add(infos_of(rest_before).to_multiset()));
    }
    proof {
        assert(infos_of(rest@) =~= Seq::<ExtensionInfoView>::empty());
        infos_of(rest@).to_multiset_ensures();
        assert(infos_of(rest@).to_multiset() =~= Multiset::<ExtensionInfoView>::empty());
        assert(infos_of(out@).to_multiset().add(Multiset::<ExtensionInfoView>::empty())
            =~= infos_of(out@).to_multiset());
    }
    out
}

/// The extensions found in `scans`, in the order of discovery.
pub fn discover(scans: &Vec<FolderScan>) -> (r: Vec<ExtensionInfo>)
    ensures
        infos_of(r@) == discovered(scans_of(scans@)),
{
    let ghost all = scans_of(scans@);
    let mut out: Vec<ExtensionInfo> = Vec::new();
    let mut i: usize = 0;
    assert(all.take(0) =~= Seq::<FolderScanView>::empty());
    assert(infos_of(out@) =~= Seq::<ExtensionInfoView>::empty());
    while i < scans.len()
        invariant
            i <= scans@.len(),
            all == scans_of(scans@),
            infos_of(out@) == discovered(all.take(i as int)),
        decreases scans@.len() - i,
    {
        let scan = &scans[i];
        let ghost before = infos_of(out@);
        let ghost found = candidates_of(scan.found@);
        assert(all.take(i + 1).drop_last() =~= all.take(i as int));
        assert(all.take(i + 1).last() == scan@);
        let mut j: usize = 0;
        assert(found.take(0) =~= Seq::<CandidateView>::empty());
        while j < scan.found.len()
            invariant
                j <= scan.found@.len(),
                found == candidates_of(scan.found@),
                infos_of(out@) == discovered_in(before, scan.tier, found.take(j as int)),
            decreases scan.found@.len() - j,
        {
            assert(found.take(j + 1).drop_last() =~= found.take(j as int));
            assert(found.take(j + 1).last() == scan.found@[j as int]@);
            match accept(scan.tier, &scan.found[j]) {
                Some(e) => {
                    if !is_known(&out, &e.id) {
                        let ghost so_far = out@;
                        out.push(e);
                        assert(infos_of(out@) =~= infos_of(so_far).push(e@));
                    }
                },
                None => {},
            }
            j += 1;
        }
        assert(found.take(j as int) =~= found);
        i += 1;
    }
    assert(all.take(i as int) =~= all);
    out
}

/// Lists the installed extensions: those discovered in `scans`, sorted by
/// display name. Each has an identifier and carries the directory it was
/// found in.
pub fn list_extensions(scans: &Vec<FolderScan>) -> (r: Vec<ExtensionInfo>)
    ensures
        sorted_by_name(infos_of(r@)),
        infos_of(r@).to_multiset() == discovered(scans_of(scans@)).to_multiset(),
        forall|i: int|
            0 <= i < r@.len() ==> (#[trigger] r@[i]).well_formed() && r@[i].install_path is Some,
{
    let r = sort_by_name(discover(scans));
    proof {
        let found = discovered(scans_of(scans@));
        let listed = infos_of(r@);
        assert forall|i: int| 0 <= i < r@.len() implies (#[trigger] r@[i]).well_formed()
            && r@[i].install_path is Some by {
            listed.to_multiset_ensures();
            found.to_multiset_ensures();
            assert(listed[i] == r@[i]@);
            assert(listed.contains(listed[i]));
            assert(listed.to_multiset().count(listed[i]) > 0);
            assert(found.to_multiset().count(listed[i]) > 0);
            assert(found.contains(listed[i]));
            let k = choose|k: int| 0 <= k < found.len() && found[k] == listed[i];
            lemma_discovered_are_installed(scans_of(scans@), k);
        }
    }
    r
}

/// No two of `list` share an identifier.
pub open spec fn distinct_ids(list: Seq<ExtensionInfoView>) -> bool {
    forall|i: int, j: int| 0 <= i < j < list.len() ==> list[i].id != list[j].id
}

/// What a search path adds to extensions of distinct identifiers leaves the
/// identifiers distinct, and leaves what was there in its place.
pub proof fn lemma_discovered_in(
    before: Seq<ExtensionInfoView>,
    tier: Tier,
    found: Seq<CandidateView>,
)
    requires
        distinct_ids(before),
    ensures
        distinct_ids(discovered_in(before, tier, found)),
        before.len() <= discovered_in(before, tier, found).len(),
        discovered_in(before, tier, found).take(before.len() as int) == before,
    decreases found.len(),
{
    if found.len() == 0 {
        assert(before.take(before.len() as int) =~= before);
    } else {
        lemma_discovered_in(before, tier, found.drop_last());
        let so_far = discovered_in(before, tier, found.drop_last());
        let all = discovered_in(before, tier, found);
        assert(all.take(before.len() as int) =~= so_far.take(before.len() as int));
    }
}

/// Discovery never reports one identifier twice.
pub proof fn lemma_discovered_ids_distinct(scans: Seq<FolderScanView>)
    ensures
        distinct_ids(discovered(scans)),
    decreases scans.len(),
{
    if scans.len() > 0 {
        lemma_discovered_ids_distinct(scans.drop_last());
        lemma_discovered_in(discovered(scans.drop_last()), scans.last().tier, scans.last().found);
    }
}

/// What was discovered in the first search paths stays, in its place, when
/// further search paths are scanned.
pub proof fn lemma_earlier_paths_win(scans: Seq<FolderScanView>, n: int)
    requires
        0 <= n <= scans.len(),
    ensures
        discovered(scans.take(n)).len() <= discovered(scans).len(),
        discovered(scans).take(discovered(scans.take(n)).len() as int) == discovered(
            scans.take(n),
        ),
    decreases scans.len() - n,
{
    if n == scans.len() {
        assert(scans.take(n) =~= scans);
        assert(discovered(scans).take(discovered(scans).len() as int) =~= discovered(scans));
    } else {
        lemma_earlier_paths_win(scans.drop_last(), n);
        assert(scans.drop_last().take(n) =~= scans.take(n));
        lemma_discovered_ids_distinct(scans.drop_last());
        lemma_discovered_in(discovered(scans.drop_last()), scans.last().tier, scans.last().found);
        let shorter = discovered(scans.drop_last());
        let first = discovered(scans.take(n));
        assert(discovered(scans).take(first.len() as int) =~= shorter.take(first.len() as int));
    }
}

/// An extension found under one identifier in the user's directory and in a
/// system-wide one is reported once, from the user's directory.
pub proof fn lemma_user_copy_wins(user: CandidateView, system: CandidateView)
    requires
        accepted(Tier::User, user) is Some,
        accepted(Tier::System, system) is Some,
        accepted(Tier::User, user).unwrap().id == accepted(Tier::System, system).unwrap().id,
    ensures
        discovered(
            seq![
                FolderScanView { tier: Tier::User, found: seq![user] },
                FolderScanView { tier: Tier::System, found: seq![system] },
            ],
        ) == seq![accepted(Tier::User, user).unwrap()],
        accepted(Tier::User, user).unwrap().install_path == Some(user.dir),
{
    let first = FolderScanView { tier: Tier::User, found: seq![user] };
    let second = FolderScanView { tier: Tier::System, found: seq![system] };
    let scans = seq![first, second];
    let e = accepted(Tier::User, user).unwrap();
    let none = Seq::<ExtensionInfoView>::empty();
    assert(scans.drop_last() =~= seq![first]);
    assert(seq![first].drop_last() =~= Seq::<FolderScanView>::empty());
    assert(seq![user].drop_last() =~= Seq::<CandidateView>::empty());
    assert(seq![system].drop_last() =~= Seq::<CandidateView>::empty());
    assert(discovered(Seq::<FolderScanView>::empty()) == none);
    assert(discovered_in(none, Tier::User, Seq::<CandidateView>::empty()) == none);
    assert(!known(none, e.id));
    assert(discovered_in(none, Tier::User, seq![user]) == none.push(e));
    assert(none.push(e) =~= seq![e]);
    assert(discovered(seq![first]) == seq![e]);
    assert(discovered_in(seq![e], Tier::System, Seq::<CandidateView>::empty()) == seq![e]);
    assert(seq![e][0].id == e.id);
    assert(known(seq![e], e.id));
    assert(discovered_in(seq![e], Tier::System, seq![system]) == seq![e]);
}

/// An extension of the host's own is passed over in a system-wide directory
/// and reported from the user's.
pub proof fn lemma_builtin_only_from_user(
    c: CandidateView,
    text: Seq<char>,
    info: ExtensionInfoView,
)
    requires
        c.manifest == Some(text),
        descriptor(text) == Ok::<ExtensionInfoView, Seq<char>>(info),
        builtin_prefix(lowercase(info.id)),
    ensures
        accepted(Tier::System, c) is None,
        accepted(Tier::User, c) is Some,
        accepted(Tier::User, c).unwrap().id == info.id,
        discovered(seq![FolderScanView { tier: Tier::System, found: seq![c] }]).len() == 0,
        discovered(seq![FolderScanView { tier: Tier::User, found: seq![c] }]) == seq![
            accepted(Tier::User, c).unwrap(),
        ],
{
    let none = Seq::<ExtensionInfoView>::empty();
    let e = accepted(Tier::User, c).unwrap();
    let sys = FolderScanView { tier: Tier::System, found: seq![c] };
    let usr = FolderScanView { tier: Tier::User, found: seq![c] };
    assert(seq![sys].drop_last() =~= Seq::<FolderScanView>::empty());
    assert(seq![usr].drop_last() =~= Seq::<FolderScanView>::empty());
    assert(seq![c].drop_last() =~= Seq::<CandidateView>::empty());
    assert(discovered(Seq::<FolderScanView>::empty()) == none);
    assert(discovered_in(none, Tier::System, Seq::<CandidateView>::empty()) == none);
    assert(discovered_in(none, Tier::User, Seq::<CandidateView>::empty()) == none);
    assert(discovered_in(none, Tier::System, seq![c]) == none);
    assert(!known(none, e.id));
    assert(discovered_in(none, Tier::User, seq![c]) == none.push(e));
    assert(none.push(e) =~= seq![e]);
}

/// Every discovered extension has an identifier that is not empty, and
/// carries the directory it was found in.
pub proof fn lemma_discovered_are_installed(scans: Seq<FolderScanView>, k: int)
    requires
        0 <= k < discovered(scans).len(),
    ensures
        discovered(scans)[k].id.len() > 0,
        discovered(scans)[k].install_path is Some,
    decreases scans.len(),
{
    if scans.len() > 0 {
        let before = discovered(scans.drop_last());
        lemma_discovered_ids_distinct(scans.drop_last());
        lemma_discovered_in(before, scans.last().tier, scans.last().found);
        if k < before.len() {
            lemma_discovered_are_installed(scans.drop_last(), k);
            assert(discovered(scans).take(before.len() as int)[k] == discovered(scans)[k]);
        } else {
            lemma_added_are_installed(before, scans.last().tier, scans.last().found, k);
        }
    }
}

proof fn lemma_added_are_installed(
    before: Seq<ExtensionInfoView>,
    tier: Tier,
    found: Seq<CandidateView>,
    k: int,
)
    requires
        before.len() <= k < discovered_in(before, tier, found).len(),
    ensures
        discovered_in(before, tier, found)[k].id.len() > 0,
        discovered_in(before, tier, found)[k].install_path is Some,
    decreases found.len(),
{
    if found.len() > 0 {
        let so_far = discovered_in(before, tier, found.drop_last());
        if k < so_far.len() {
            lemma_added_are_installed(before, tier, found.drop_last(), k);
        } else {
            let text = found.last().manifest->Some_0;
            crate::manifest::lemma_descriptor_has_identifier(text);
        }
    }
}

} // verus!
