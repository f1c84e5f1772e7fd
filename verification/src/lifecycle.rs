//! Installing and removing extensions.
//!
//! Installing alternates decisions with work on the disk. The decisions are
//! made here: every [`InstallAction`] but the last asks for one piece of
//! work, and the value it carries takes the outcome of that work and gives
//! the next action. The caller does the work and nothing else.

use crate::folders::{
    component, is_component, join_path, joined_path, paths_of, texts_of, SearchPath,
    SearchPathView, Tier,
};
use crate::manifest::{ExtensionInfo, ExtensionInfoView};
use crate::package::{
    archive_listing, entry_text, error_message, extract_all, file_of, load_package, lost_count,
    manifest_index, package_descriptor, planned_steps, read_descriptor, steps_of,
    zxp_descriptor, ExtractStep, Package, PackageEntryView, PackageError, PackageErrorView,
};
use crate::registry::{accepted, discovered, discovered_in, known, CandidateView, FolderScanView};
use vstd::prelude::*;
use vstd::string::StringExecFns;

verus! {

/// How an installation ended.
#[derive(Debug)]
pub struct InstallResult {
    /// Whether the extension was installed.
    pub success: bool,
    /// What to tell the user.
    pub message: String,
    /// The installed extension, where there is one.
    pub extension: Option<ExtensionInfo>,
    /// The number of entries of the package that did not reach the disk.
    pub skipped_entries: usize,
}

/// The mathematical value of an [`InstallResult`].
pub struct InstallResultView {
    pub success: bool,
    pub message: Seq<char>,
    pub extension: Option<ExtensionInfoView>,
    pub skipped_entries: nat,
}

impl View for InstallResult {
    type V = InstallResultView;

    open spec fn view(&self) -> InstallResultView {
        InstallResultView {
            success: self.success,
            message: self.message@,
            extension: match self.extension {
                Some(e) => Some(e@),
                None => None,
            },
            skipped_entries: self.skipped_entries as nat,
        }
    }
}

impl InstallResult {
    /// The invariant of a result: it carries an extension exactly where the
    /// installation succeeded.
    pub open spec fn well_formed(&self) -> bool {
        self.success <==> self.extension is Some
    }
}

/// A package that was read and is ready to be installed.
#[derive(Debug)]
pub struct Staged {
    /// The descriptor of the package.
    pub info: ExtensionInfo,
    /// The directory into which the package is installed.
    pub target: String,
    /// What the package holds.
    pub package: Package,
}

/// The question whether the target directory of [`Staged`] exists.
#[derive(Debug)]
pub struct Probe {
    pub staged: Staged,
}

/// The request to remove the target directory with all it holds.
#[derive(Debug)]
pub struct Removal {
    pub staged: Staged,
}

/// The request to create the target directory and the directories above it.
#[derive(Debug)]
pub struct Creation {
    pub staged: Staged,
}

/// The request to take the steps, in order, going on after a step that
/// fails, and to count the steps that failed.
#[derive(Debug)]
pub struct Extraction {
    pub info: ExtensionInfo,
    pub target: String,
    pub steps: Vec<ExtractStep>,
    /// The entries that were lost before any step was taken.
    pub lost: usize,
}

/// What the caller is to do next.
#[derive(Debug)]
pub enum InstallAction {
    /// Find out whether the target exists, and answer the [`Probe`].
    ProbeTarget(Probe),
    /// Remove the target, and answer the [`Removal`].
    RemoveTarget(Removal),
    /// Create the target, and answer the [`Creation`].
    CreateTarget(Creation),
    /// Unpack the package, and answer the [`Extraction`].
    Extract(Extraction),
    /// Nothing: the installation ended with this result.
    Finish(InstallResult),
}

/// The result of an installation that failed with `message`.
pub open spec fn failure(message: Seq<char>) -> InstallResultView {
    InstallResultView { success: false, message, extension: None, skipped_entries: 0 }
}

/// The result of an installation that put `info` into `target` and lost
/// `skipped` entries on the way.
pub open spec fn success(info: ExtensionInfoView, target: Seq<char>, skipped: nat)
    -> InstallResultView {
    InstallResultView {
        success: true,
        message: "'"@ + info.name + "' installed successfully!"@,
        extension: Some(
            ExtensionInfoView {
                id: info.id,
                name: info.name,
                version: info.version,
                description: info.description,
                author: info.author,
                host_list: info.host_list,
                cep_version: info.cep_version,
                install_path: Some(target),
                icon_path: info.icon_path,
            },
        ),
        skipped_entries: skipped,
    }
}

/// The number of entries that did not reach the disk: those lost before the
/// first step, and the steps that failed, which are no more than the steps;
/// at most the greatest `usize`.
pub open spec fn skipped_total(lost: nat, steps: nat, failed: nat) -> nat {
    let counted = if failed <= steps {
        failed
    } else {
        steps
    };
    if lost + counted <= usize::MAX {
        lost + counted
    } else {
        usize::MAX as nat
    }
}

fn failed_with(prefix: &str, reason: &str) -> (r: InstallResult)
    ensures
        r@ == failure(prefix@ + reason@),
        r.well_formed(),
{
    InstallResult {
        success: false,
        message: prefix.to_string().concat(reason),
        extension: None,
        skipped_entries: 0,
    }
}

/// The message for a descriptor whose identifier cannot name a directory.
pub open spec fn unusable_identifier(id: Seq<char>) -> Seq<char> {
    "Extension ID '"@ + id + "' is not a directory name"@
}

/// Begins the installation of the package whose file held `file`, the bytes
/// of the file or the reason why they could not be read, into the directory
/// `primary`. A package without a readable descriptor ends the installation
/// before anything is asked of the disk, and so does one whose identifier is
/// no single component of a path: the directory of an extension lies
/// directly in `primary`, and such an identifier would name `primary` itself
/// or a place outside it. Any other package is staged for the directory named
/// by its identifier.
pub fn install_extension(file: Result<Vec<u8>, String>, primary: &str) -> (action: InstallAction)
    ensures
        match zxp_descriptor(file_of(file)) {
            Err(e) => action matches InstallAction::Finish(res) && res@ == failure(
                "Invalid ZXP file: "@ + error_message(e),
            ),
            Ok(info) => if component(info.id) {
                action matches InstallAction::ProbeTarget(probe) && probe.staged.info@ == info
                    && probe.staged.info.well_formed() && probe.staged.target@ == joined_path(
                    primary@,
                    info.id,
                ) && (file matches Ok(bytes) && archive_listing(bytes@) == Ok::<
                    Seq<Option<PackageEntryView>>,
                    Seq<char>,
                >(probe.staged.package@.entries))
            } else {
                action matches InstallAction::Finish(res) && res@ == failure(
                    "Invalid ZXP file: "@ + unusable_identifier(info.id),
                )
            },
        },
{
    let loaded = match file {
        Err(reason) => Err(PackageError::Unreadable(reason)),
        Ok(bytes) => load_package(bytes),
    };
    match loaded {
        Err(e) => {
            let text = e.message();
            InstallAction::Finish(failed_with("Invalid ZXP file: ", text.as_str()))
        },
        Ok(package) => match read_descriptor(&package) {
            Err(e) => {
                let text = e.message();
                InstallAction::Finish(failed_with("Invalid ZXP file: ", text.as_str()))
            },
            Ok(info) => {
                if is_component(info.id.as_str()) {
                    let target = join_path(primary, info.id.as_str());
                    InstallAction::ProbeTarget(Probe { staged: Staged { info, target, package } })
                } else {
                    let text = "Extension ID '".to_string().concat(info.id.as_str()).concat(
                        "' is not a directory name",
                    );
                    InstallAction::Finish(failed_with("Invalid ZXP file: ", text.as_str()))
                }
            },
        },
    }
}

impl Probe {
    /// What follows the probe.
    pub open spec fn next(self, exists: bool) -> InstallAction {
        if exists {
            InstallAction::RemoveTarget(Removal { staged: self.staged })
        } else {
            InstallAction::CreateTarget(Creation { staged: self.staged })
        }
    }

    /// Takes the answer: a target that exists is removed first, so that
    /// nothing of an earlier installation stays; one that does not is
    /// created.
    pub fn answered(self, exists: bool) -> (action: InstallAction)
        ensures
            action == self.next(exists),
    {
        if exists {
            InstallAction::RemoveTarget(Removal { staged: self.staged })
        } else {
            InstallAction::CreateTarget(Creation { staged: self.staged })
        }
    }
}

impl Removal {
    /// Takes the outcome of the removal: the reason why it failed, if it
    /// did. A target that could not be removed ends the installation before
    /// anything is written.
    pub fn answered(self, outcome: Result<(), String>) -> (action: InstallAction)
        ensures
            match outcome {
                Ok(_) => action == InstallAction::CreateTarget(Creation { staged: self.staged }),
                Err(reason) => action matches InstallAction::Finish(res) && res@ == failure(
                    "Cannot remove existing installation: "@ + reason@,
                ),
            },
    {
        match outcome {
            Ok(_) => InstallAction::CreateTarget(Creation { staged: self.staged }),
            Err(reason) => InstallAction::Finish(
                failed_with("Cannot remove existing installation: ", reason.as_str()),
            ),
        }
    }
}

impl Creation {
    /// Takes the outcome of the creation: the reason why it failed, if it
    /// did. Into a target that was created the whole package is unpacked.
    pub fn answered(self, outcome: Result<(), String>) -> (action: InstallAction)
        ensures
            match outcome {
                Ok(_) => action matches InstallAction::Extract(x) && x.info == self.staged.info
                    && x.target == self.staged.target && steps_of(x.steps@) == planned_steps(
                    self.staged.target@,
                    self.staged.package@.entries,
                ) && x.lost == lost_count(self.staged.package@.entries),
                Err(reason) => action matches InstallAction::Finish(res) && res@ == failure(
                    "Cannot create extension directory: "@ + reason@,
                ),
            },
    {
        match outcome {
            Ok(_) => {
                let plan = extract_all(&self.staged.package, self.staged.target.as_str());
                InstallAction::Extract(
                    Extraction {
                        info: self.staged.info,
                        target: self.staged.target,
                        steps: plan.steps,
                        lost: plan.lost,
                    },
                )
            },
            Err(reason) => InstallAction::Finish(
                failed_with("Cannot create extension directory: ", reason.as_str()),
            ),
        }
    }
}

impl Extraction {
    /// Takes the number of steps that failed. The installation has
    /// succeeded whatever that number is; the result tells how many entries
    /// did not reach the disk.
    pub fn answered(self, failed: usize) -> (r: InstallResult)
        ensures
            r@ == success(
                self.info@,
                self.target@,
                skipped_total(self.lost as nat, self.steps@.len(), failed as nat),
            ),
            r.well_formed(),
    {
        let counted = if failed <= self.steps.len() {
            failed
        } else {
            self.steps.len()
        };
        let skipped = if self.lost > usize::MAX - counted {
            usize::MAX
        } else {
            self.lost + counted
        };
        let message = "'".to_string().concat(self.info.name.as_str()).concat(
            "' installed successfully!",
        );
        let mut installed = self.info;
        installed.install_path = Some(self.target);
        InstallResult {
            success: true,
            message,
            extension: Some(installed),
            skipped_entries: skipped,
        }
    }
}

/// The directories that would hold the extension `id`, one for each of
/// `folders`.
pub open spec fn removal_candidates(folders: Seq<SearchPathView>, id: Seq<char>) -> Seq<Seq<char>> {
    folders.map_values(|f: SearchPathView| joined_path(f.dir, id))
}

/// The position of the first directory that is present. The directory at
/// position `i` is present where `present[i]` says so; one without an entry
/// in `present` counts as absent.
pub open spec fn first_present(count: nat, present: Seq<bool>) -> Option<int>
    decreases count,
{
    if count == 0 {
        None
    } else {
        match first_present((count - 1) as nat, present) {
            Some(i) => Some(i),
            None => if count - 1 < present.len() && present[count - 1] {
                Some(count - 1)
            } else {
                None
            },
        }
    }
}

/// The message for an extension that no search path holds.
pub open spec fn not_found(id: Seq<char>) -> Seq<char> {
    "Extension '"@ + id + "' not found"@
}

/// The directories that would hold the extension `extension_id`, one for
/// each of `folders`, in their order. They are for finding out what is
/// present; what is removed is decided by [`uninstall_extension`] alone.
pub fn uninstall_targets(folders: &Vec<SearchPath>, extension_id: &str) -> (r: Vec<String>)
    ensures
        texts_of(r@) == removal_candidates(paths_of(folders@), extension_id@),
{
    let mut out: Vec<String> = Vec::new();
    let mut i: usize = 0;
    while i < folders.len()
        invariant
            i <= folders@.len(),
            out@.len() == i,
            forall|k: int| 0 <= k < i ==> (#[trigger] out@[k])@ == joined_path(
                folders@[k].dir@,
                extension_id@,
            ),
        decreases folders@.len() - i,
    {
        out.push(join_path(folders[i].dir.as_str(), extension_id));
        i += 1;
    }
    assert(texts_of(out@) =~= removal_candidates(
        paths_of(folders@),
        extension_id@,
    ));
    out
}

/// Decides what to remove to uninstall `extension_id`: the first of the
/// directories of [`uninstall_targets`] that is present, as `present` says by
/// position. Where none is present the extension is not installed, and the
/// call fails. It fails too, whatever is present, for an identifier that is
/// no single component of a path: such a one names no directory in a search
/// path, and its target would be the search path itself or lie outside it.
pub fn uninstall_extension(
    folders: &Vec<SearchPath>,
    extension_id: &str,
    present: &Vec<bool>,
) -> (r: Result<String, String>)
    ensures
        !component(extension_id@) ==> (r matches Err(message) && message@ == not_found(
            extension_id@,
        )),
        component(extension_id@) ==> match first_present(folders@.len(), present@) {
            Some(i) => 0 <= i < folders@.len() && (r matches Ok(dir) && dir@ == joined_path(
                folders@[i].dir@,
                extension_id@,
            )),
            None => r matches Err(message) && message@ == not_found(extension_id@),
        },
{
    if is_component(extension_id) {
        let mut i: usize = 0;
        while i < folders.len()
            invariant
                i <= folders@.len(),
                component(extension_id@),
                first_present(i as nat, present@) is None,
            decreases folders@.len() - i,
        {
            if i < present.len() && present[i] {
                proof {
                    lemma_first_present_stays((i + 1) as nat, folders@.len(), present@);
                }
                return Ok(join_path(folders[i].dir.as_str(), extension_id));
            }
            i += 1;
        }
    }
    Err("Extension '".to_string().concat(extension_id).concat("' not found"))
}

/// A directory found present among the first `n` is the one found among
/// all.
pub proof fn lemma_first_present_stays(n: nat, count: nat, present: Seq<bool>)
    requires
        n <= count,
        first_present(n, present) is Some,
    ensures
        first_present(count, present) == first_present(n, present),
    decreases count - n,
{
    if n < count {
        lemma_first_present_stays(n, (count - 1) as nat, present);
    }
}

/// Where no directory is present, uninstalling fails; where one is, it is
/// the first such that is named.
pub proof fn lemma_first_present(count: nat, present: Seq<bool>)
    ensures
        match first_present(count, present) {
            Some(i) => 0 <= i < count && i < present.len() && present[i] && forall|j: int|
                0 <= j < i ==> !(j < present.len() && #[trigger] present[j]),
            None => forall|j: int| 0 <= j < count ==> !(j < present.len() && #[trigger] present[j]),
        },
    decreases count,
{
    if count > 0 {
        lemma_first_present((count - 1) as nat, present);
    }
}

/// The outcome of uninstalling, given that of removing the directory: the
/// reason why the removal failed, if it did.
pub fn removal_outcome(outcome: Result<(), String>) -> (r: Result<(), String>)
    ensures
        match outcome {
            Ok(_) => r is Ok,
            Err(reason) => r matches Err(message) && message@ == "Cannot remove extension: "@
                + reason@,
        },
{
    match outcome {
        Ok(_) => Ok(()),
        Err(reason) => Err("Cannot remove extension: ".to_string().concat(reason.as_str())),
    }
}

/// An installed package is discovered as what it was installed as: where
/// the user's directory holds the target directory with the text of the
/// package's descriptor entry, discovery reports one extension, in that
/// directory, with the identifier, the version and the hosts that the
/// installation reported.
pub proof fn lemma_installed_is_discovered(
    entries: Seq<Option<PackageEntryView>>,
    info: ExtensionInfoView,
    target: Seq<char>,
    icons: Seq<bool>,
)
    requires
        package_descriptor(entries) == Ok::<ExtensionInfoView, PackageErrorView>(info),
    ensures
        manifest_index(entries) is Some,
        entry_text(entries[manifest_index(entries).unwrap()].unwrap()) is Ok,
        ({
            let text = entry_text(entries[manifest_index(entries).unwrap()].unwrap())->Ok_0;
            let found = discovered(
                seq![
                    FolderScanView {
                        tier: Tier::User,
                        found: seq![CandidateView { dir: target, manifest: Some(text), icons }],
                    },
                ],
            );
            &&& found.len() == 1
            &&& found[0].id == info.id
            &&& found[0].version == info.version
            &&& found[0].host_list == info.host_list
            &&& found[0].install_path == Some(target)
            &&& found[0].install_path == success(info, target, 0).extension.unwrap().install_path
        }),
{
    let text = entry_text(entries[manifest_index(entries).unwrap()].unwrap())->Ok_0;
    let c = CandidateView { dir: target, manifest: Some(text), icons };
    let scan = FolderScanView { tier: Tier::User, found: seq![c] };
    let none = Seq::<ExtensionInfoView>::empty();
    let e = accepted(Tier::User, c).unwrap();
    assert(seq![scan].drop_last() =~= Seq::<FolderScanView>::empty());
    assert(seq![c].drop_last() =~= Seq::<CandidateView>::empty());
    assert(discovered(Seq::<FolderScanView>::empty()) == none);
    assert(discovered_in(none, Tier::User, Seq::<CandidateView>::empty()) == none);
    assert(!known(none, e.id));
    assert(discovered_in(none, Tier::User, seq![c]) == none.push(e));
}

} // verus!
