//! Reading extension packages.
//!
//! A package is a zip archive. The archive is opened from the bytes of the
//! package file and read entry by entry into a [`Package`], a plain record of
//! what it holds; everything else works on that record.

use crate::folders::{contained, is_contained, join_path, joined_path};
use crate::manifest::{descriptor, parse_manifest_xml, ExtensionInfo, ExtensionInfoView};
use crate::text::{begins_with, chars_of, ends_with, finishes_with, lower, lowercase, starts_with};
use std::io::Cursor;
use vstd::prelude::*;
use vstd::string::StringExecFns;
use vstd::utf8::{decode_utf8, valid_utf8};
use zip::ZipArchive;

verus! {

/// `zip::ZipArchive`, an archive opened for reading.
#[verifier::external_type_specification]
#[verifier::external_body]
#[verifier::reject_recursive_types(R)]
pub struct ExZipArchive<R>(ZipArchive<R>);

/// `std::io::Cursor`, a reader over bytes in memory.
#[verifier::external_type_specification]
#[verifier::external_body]
#[verifier::reject_recursive_types(T)]
pub struct ExCursor<T>(Cursor<T>);

/// One entry of a package.
#[derive(Debug)]
pub struct PackageEntry {
    /// The entry's name: a path with `/` between its parts, ending in `/`
    /// where the entry stands for a directory.
    pub name: String,
    /// The entry's content, as far as it could be read.
    pub data: Vec<u8>,
    /// Why reading the content failed, where it did.
    pub damage: Option<String>,
}

/// The mathematical value of a [`PackageEntry`].
pub struct PackageEntryView {
    pub name: Seq<char>,
    pub data: Seq<u8>,
    pub damage: Option<Seq<char>>,
}

impl View for PackageEntry {
    type V = PackageEntryView;

    open spec fn view(&self) -> PackageEntryView {
        PackageEntryView {
            name: self.name@,
            data: self.data@,
            damage: match self.damage {
                Some(d) => Some(d@),
                None => None,
            },
        }
    }
}

/// The value of an entry that may be missing.
pub open spec fn entry_of(e: Option<PackageEntry>) -> Option<PackageEntryView> {
    match e {
        Some(entry) => Some(entry@),
        None => None,
    }
}

/// What a package holds: its entries in the order of the archive. An entry
/// that cannot be opened, or whose name cannot be decoded, is `None`.
#[derive(Debug)]
pub struct Package {
    pub entries: Vec<Option<PackageEntry>>,
}

/// The mathematical value of a [`Package`].
pub struct PackageView {
    pub entries: Seq<Option<PackageEntryView>>,
}

/// The values of a list of entries.
pub open spec fn entries_of(list: Seq<Option<PackageEntry>>) -> Seq<Option<PackageEntryView>> {
    list.map_values(|e: Option<PackageEntry>| entry_of(e))
}

impl View for Package {
    type V = PackageView;

    open spec fn view(&self) -> PackageView {
        PackageView { entries: entries_of(self.entries@) }
    }
}

/// The entries that an open archive holds, in the order of its central
/// directory, each as `ZipArchive::by_index` presents it.
pub uninterp spec fn archive_entries(a: ZipArchive<Cursor<Vec<u8>>>) -> Seq<
    Option<PackageEntryView>,
>;

/// What `ZipArchive::new` makes of `bytes`: the entries of the archive that
/// they encode, or, where they are no archive that it can open, the text of
/// its error.
pub uninterp spec fn archive_listing(bytes: Seq<u8>) -> Result<
    Seq<Option<PackageEntryView>>,
    Seq<char>,
>;

/// `ZipArchive::new` over the bytes of a package, with its error turned into
/// the text that the error's `Display` gives. It reads the archive's central
/// directory and fails where there is none that it can read. Both what it
/// finds and the text of its error depend on the bytes alone and are given
/// the name [`archive_listing`].
#[verifier::external_body]
pub(crate) fn open_archive(bytes: Vec<u8>) -> (r: Result<ZipArchive<Cursor<Vec<u8>>>, String>)
    ensures
        match r {
            Ok(a) => archive_listing(bytes@) == Ok::<Seq<Option<PackageEntryView>>, Seq<char>>(
                archive_entries(a),
            ),
            Err(reason) => archive_listing(bytes@) == Err::<
                Seq<Option<PackageEntryView>>,
                Seq<char>,
            >(reason@),
        },
{
    ZipArchive::new(Cursor::new(bytes)).map_err(|e| e.to_string())
}

/// `ZipArchive::len`: the number of entries in the central directory, which
/// are the indices that `ZipArchive::by_index` knows.
#[verifier::external_body]
pub(crate) fn archive_len(a: &ZipArchive<Cursor<Vec<u8>>>) -> (r: usize)
    ensures
        r == archive_entries(*a).len(),
{
    a.len()
}

/// `ZipArchive::by_index`, with the `ZipFile` it yields turned into plain
/// values: its name, by `ZipFile::name`, and its content, by `read_to_end`
/// of its `Read`, with the reason where reading stops early. There is no
/// entry behind the last index, and none where the entry cannot be opened or
/// its name cannot be decoded. What the archive holds is read from its
/// bytes alone and is not changed by reading; it is given the name
/// [`archive_entries`].
#[verifier::external_body]
pub(crate) fn read_entry(a: &mut ZipArchive<Cursor<Vec<u8>>>, i: usize) -> (r: Option<
    PackageEntry,
>)
    ensures
        archive_entries(*final(a)) == archive_entries(*old(a)),
        i < archive_entries(*old(a)).len() ==> entry_of(r) == archive_entries(*old(a))[i as int],
        i >= archive_entries(*old(a)).len() ==> r is None,
{
    let mut file = a.by_index(i).ok()?;
    let name = file.name().ok()?.into_owned();
    let mut data = Vec::new();
    let damage = std::io::Read::read_to_end(&mut file, &mut data).err().map(|e| e.to_string());
    Some(PackageEntry { name, data, damage })
}

/// `std::str::from_utf8`: the text that `data` encode, where they are valid
/// UTF-8.
#[verifier::external_body]
pub(crate) fn utf8_text(data: &[u8]) -> (r: Option<String>)
    ensures
        match r {
            Some(s) => valid_utf8(data@) && s@ == decode_utf8(data@),
            None => !valid_utf8(data@),
        },
{
    std::str::from_utf8(data).ok().map(|s| s.to_string())
}

/// Why a package gave no descriptor.
#[derive(Debug)]
pub enum PackageError {
    /// The package file could not be read; the system's reason.
    Unreadable(String),
    /// The file is no archive; the reader's reason.
    NotAnArchive(String),
    /// No entry of the archive is a descriptor.
    MissingManifest,
    /// The descriptor entry could not be read as text; the reason.
    BadEntry(String),
    /// The descriptor names no extension; the parser's reason.
    BadManifest(String),
}

/// The mathematical value of a [`PackageError`].
pub enum PackageErrorView {
    Unreadable(Seq<char>),
    NotAnArchive(Seq<char>),
    MissingManifest,
    BadEntry(Seq<char>),
    BadManifest(Seq<char>),
}

impl View for PackageError {
    type V = PackageErrorView;

    open spec fn view(&self) -> PackageErrorView {
        match self {
            PackageError::Unreadable(e) => PackageErrorView::Unreadable(e@),
            PackageError::NotAnArchive(e) => PackageErrorView::NotAnArchive(e@),
            PackageError::MissingManifest => PackageErrorView::MissingManifest,
            PackageError::BadEntry(e) => PackageErrorView::BadEntry(e@),
            PackageError::BadManifest(e) => PackageErrorView::BadManifest(e@),
        }
    }
}

/// The message that an error shows.
pub open spec fn error_message(e: PackageErrorView) -> Seq<char> {
    match e {
        PackageErrorView::Unreadable(reason) => "Cannot open file: "@ + reason,
        PackageErrorView::NotAnArchive(reason) => "Not a valid ZXP: "@ + reason,
        PackageErrorView::MissingManifest => "manifest.xml not found in ZXP"@,
        PackageErrorView::BadEntry(reason) => reason,
        PackageErrorView::BadManifest(reason) => reason,
    }
}

impl PackageError {
    /// The message that the error shows.
    pub fn message(&self) -> (r: String)
        ensures
            r@ == error_message(self@),
    {
        match self {
            PackageError::Unreadable(reason) => "Cannot open file: ".to_string().concat(
                reason.as_str(),
            ),
            PackageError::NotAnArchive(reason) => "Not a valid ZXP: ".to_string().concat(
                reason.as_str(),
            ),
            PackageError::MissingManifest => "manifest.xml not found in ZXP".to_string(),
            PackageError::BadEntry(reason) => reason.clone(),
            PackageError::BadManifest(reason) => reason.clone(),
        }
    }
}

/// The entry is a descriptor: its name, in lower case, ends with
/// `manifest.xml`.
pub open spec fn names_manifest(e: Option<PackageEntryView>) -> bool {
    match e {
        Some(entry) => finishes_with(lowercase(entry.name), "manifest.xml"@),
        None => false,
    }
}

/// The position of the first entry that is a descriptor.
pub open spec fn manifest_index(entries: Seq<Option<PackageEntryView>>) -> Option<int>
    decreases entries.len(),
{
    if entries.len() == 0 {
        None
    } else {
        match manifest_index(entries.drop_last()) {
            Some(i) => Some(i),
            None => if names_manifest(entries.last()) {
                Some(entries.len() - 1)
            } else {
                None
            },
        }
    }
}

/// The content of an entry as text: it must have been read whole and be
/// valid UTF-8.
pub open spec fn entry_text(e: PackageEntryView) -> Result<Seq<char>, Seq<char>> {
    match e.damage {
        Some(reason) => Err(reason),
        None => if valid_utf8(e.data) {
            Ok(decode_utf8(e.data))
        } else {
            Err("stream did not contain valid UTF-8"@)
        },
    }
}

/// The descriptor of a package: that of its first descriptor entry.
pub open spec fn package_descriptor(entries: Seq<Option<PackageEntryView>>) -> Result<
    ExtensionInfoView,
    PackageErrorView,
> {
    match manifest_index(entries) {
        None => Err(PackageErrorView::MissingManifest),
        Some(i) => match entry_text(entries[i].unwrap()) {
            Err(reason) => Err(PackageErrorView::BadEntry(reason)),
            Ok(text) => match descriptor(text) {
                Err(reason) => Err(PackageErrorView::BadManifest(reason)),
                Ok(info) => Ok(info),
            },
        },
    }
}

/// The value of the outcome of reading a descriptor.
pub open spec fn outcome_of(r: Result<ExtensionInfo, PackageError>) -> Result<
    ExtensionInfoView,
    PackageErrorView,
> {
    match r {
        Ok(info) => Ok(info@),
        Err(e) => Err(e@),
    }
}

/// Where `manifest_index` names a position, a descriptor entry stands there
/// and none stands before it.
pub proof fn lemma_manifest_index(entries: Seq<Option<PackageEntryView>>)
    ensures
        match manifest_index(entries) {
            Some(i) => 0 <= i < entries.len() && names_manifest(entries[i]) && forall|j: int|
                0 <= j < i ==> !names_manifest(#[trigger] entries[j]),
            None => forall|j: int|
                0 <= j < entries.len() ==> !names_manifest(#[trigger] entries[j]),
        },
    decreases entries.len(),
{
    if entries.len() > 0 {
        lemma_manifest_index(entries.drop_last());
        assert forall|j: int| 0 <= j < entries.len() - 1 implies entries.drop_last()[j]
            == entries[j] by {}
    }
}

/// Reads the archive that `bytes` encode into a [`Package`].
pub fn load_package(bytes: Vec<u8>) -> (r: Result<Package, PackageError>)
    ensures
        match r {
            Ok(p) => archive_listing(bytes@) == Ok::<Seq<Option<PackageEntryView>>, Seq<char>>(
                p@.entries,
            ),
            Err(e) => e matches PackageError::NotAnArchive(reason) && archive_listing(bytes@)
                == Err::<Seq<Option<PackageEntryView>>, Seq<char>>(reason@),
        },
{
    let ghost given = bytes@;
    match open_archive(bytes) {
        Err(reason) => Err(PackageError::NotAnArchive(reason)),
        Ok(archive) => {
            let mut archive = archive;
            let ghost listing = archive_entries(archive);
            let n = archive_len(&archive);
            let mut entries: Vec<Option<PackageEntry>> = Vec::new();
            let mut i: usize = 0;
            assert(entries_of(entries@) =~= listing.take(0));
            while i < n
                invariant
                    i <= n,
                    n == listing.len(),
                    archive_entries(archive) == listing,
                    entries_of(entries@) == listing.take(i as int),
                decreases n - i,
            {
                let entry = read_entry(&mut archive, i);
                let ghost before = entries@;
                entries.push(entry);
                assert(entries_of(entries@) =~= entries_of(before).push(entry_of(entry)));
                assert(listing.take(i + 1) =~= listing.take(i as int).push(listing[i as int]));
                i += 1;
            }
            assert(listing.take(i as int) =~= listing);
            Ok(Package { entries })
        },
    }
}

/// Whether the entry is a descriptor.
pub fn is_manifest_entry(e: &Option<PackageEntry>) -> (r: bool)
    ensures
        r == names_manifest(entry_of(*e)),
{
    match e {
        None => false,
        Some(entry) => {
            let name = chars_of(entry.name.as_str());
            let folded = lower(name.as_slice());
            let suffix = chars_of("manifest.xml");
            ends_with(folded.as_slice(), suffix.as_slice())
        },
    }
}

/// The position of the first entry of `package` that is a descriptor.
pub fn find_manifest(package: &Package) -> (r: Option<usize>)
    ensures
        match r {
            Some(i) => manifest_index(package@.entries) == Some(i as int) && i
                < package.entries@.len() && package.entries@[i as int] is Some,
            None => manifest_index(package@.entries) is None,
        },
{
    let ghost all = package@.entries;
    let mut i: usize = 0;
    assert(all.take(0) =~= Seq::<Option<PackageEntryView>>::empty());
    while i < package.entries.len()
        invariant
            i <= package.entries@.len(),
            all == package@.entries,
            manifest_index(all.take(i as int)) is None,
        decreases package.entries@.len() - i,
    {
        assert(all.take(i + 1).drop_last() =~= all.take(i as int));
        assert(all.take(i + 1).last() == entry_of(package.entries@[i as int]));
        if is_manifest_entry(&package.entries[i]) {
            proof {
                lemma_manifest_index_stays(all, i + 1);
            }
            return Some(i);
        }
        i += 1;
    }
    assert(all.take(i as int) =~= all);
    None
}

/// A descriptor found among the first `n` entries is the one found among all.
pub proof fn lemma_manifest_index_stays(entries: Seq<Option<PackageEntryView>>, n: int)
    requires
        0 <= n <= entries.len(),
        manifest_index(entries.take(n)) is Some,
    ensures
        manifest_index(entries) == manifest_index(entries.take(n)),
    decreases entries.len() - n,
{
    if n == entries.len() {
        assert(entries.take(n) =~= entries);
    } else {
        assert(entries.drop_last().take(n) =~= entries.take(n));
        lemma_manifest_index_stays(entries.drop_last(), n);
    }
}

/// The content of an entry as text.
pub fn text_of_entry(e: &PackageEntry) -> (r: Result<String, String>)
    ensures
        match r {
            Ok(t) => entry_text(e@) == Ok::<Seq<char>, Seq<char>>(t@),
            Err(reason) => entry_text(e@) == Err::<Seq<char>, Seq<char>>(reason@),
        },
{
    match &e.damage {
        Some(reason) => Err(reason.clone()),
        None => match utf8_text(e.data.as_slice()) {
            Some(t) => Ok(t),
            None => Err("stream did not contain valid UTF-8".to_string()),
        },
    }
}

/// Reads the descriptor of a package: that of the first entry whose name, in
/// lower case, ends with `manifest.xml`.
pub fn read_descriptor(package: &Package) -> (r: Result<ExtensionInfo, PackageError>)
    ensures
        outcome_of(r) == package_descriptor(package@.entries),
        r matches Ok(info) ==> info.well_formed(),
{
    match find_manifest(package) {
        None => Err(PackageError::MissingManifest),
        Some(i) => match &package.entries[i] {
            None => Err(PackageError::MissingManifest),
            Some(entry) => match text_of_entry(entry) {
                Err(reason) => Err(PackageError::BadEntry(reason)),
                Ok(text) => match parse_manifest_xml(text.as_str()) {
                    Err(reason) => Err(PackageError::BadManifest(reason)),
                    Ok(info) => Ok(info),
                },
            },
        },
    }
}

/// The descriptor of the package whose file held `file`: the bytes of the
/// file, or the reason why they could not be read.
pub open spec fn zxp_descriptor(file: Result<Seq<u8>, Seq<char>>) -> Result<
    ExtensionInfoView,
    PackageErrorView,
> {
    match file {
        Err(reason) => Err(PackageErrorView::Unreadable(reason)),
        Ok(bytes) => match archive_listing(bytes) {
            Err(reason) => Err(PackageErrorView::NotAnArchive(reason)),
            Ok(entries) => package_descriptor(entries),
        },
    }
}

/// The value of what was read of a file.
pub open spec fn file_of(file: Result<Vec<u8>, String>) -> Result<Seq<u8>, Seq<char>> {
    match file {
        Ok(bytes) => Ok(bytes@),
        Err(reason) => Err(reason@),
    }
}

/// Reads the descriptor of the package whose file held `file`: the bytes of
/// the file, or the reason why they could not be read.
pub fn get_extension_info_from_zxp(file: Result<Vec<u8>, String>) -> (r: Result<
    ExtensionInfo,
    PackageError,
>)
    ensures
        outcome_of(r) == zxp_descriptor(file_of(file)),
        r matches Ok(info) ==> info.well_formed(),
{
    match file {
        Err(reason) => Err(PackageError::Unreadable(reason)),
        Ok(bytes) => match load_package(bytes) {
            Err(e) => Err(e),
            Ok(package) => read_descriptor(&package),
        },
    }
}

/// One step of unpacking a package.
#[derive(Debug)]
pub enum ExtractStep {
    /// Create the directory `path`, with the directories above it.
    MakeDir { path: String },
    /// Create the directories above `path` and write `data` to the file `path`.
    WriteFile { path: String, data: Vec<u8> },
}

/// The mathematical value of an [`ExtractStep`].
pub enum ExtractStepView {
    MakeDir { path: Seq<char> },
    WriteFile { path: Seq<char>, data: Seq<u8> },
}

impl View for ExtractStep {
    type V = ExtractStepView;

    open spec fn view(&self) -> ExtractStepView {
        match self {
            ExtractStep::MakeDir { path } => ExtractStepView::MakeDir { path: path@ },
            ExtractStep::WriteFile { path, data } => ExtractStepView::WriteFile {
                path: path@,
                data: data@,
            },
        }
    }
}

/// The values of a list of steps.
pub open spec fn steps_of(list: Seq<ExtractStep>) -> Seq<ExtractStepView> {
    list.map_values(|s: ExtractStep| s@)
}

/// How a package is unpacked: the steps to take, in order, and the number
/// of entries that are lost whatever the steps achieve.
#[derive(Debug)]
pub struct ExtractionPlan {
    pub steps: Vec<ExtractStep>,
    pub lost: usize,
}

/// The name lies under the prefix that holds a package's signature.
pub open spec fn reserved(name: Seq<char>) -> bool {
    begins_with(name, "META-INF"@)
}

/// The name marks a directory.
pub open spec fn marks_directory(name: Seq<char>) -> bool {
    finishes_with(name, seq!['/'])
}

/// The step that unpacks an entry below `destination`. A missing entry and
/// an entry of the signature take no step, and neither does an entry whose
/// name would lead out of `destination`: nothing is unpacked but into it.
pub open spec fn step_for(destination: Seq<char>, e: Option<PackageEntryView>) -> Option<
    ExtractStepView,
> {
    match e {
        None => None,
        Some(entry) => {
            if reserved(entry.name) || !contained(entry.name) {
                None
            } else if marks_directory(entry.name) {
                Some(ExtractStepView::MakeDir { path: joined_path(destination, entry.name) })
            } else {
                Some(
                    ExtractStepView::WriteFile {
                        path: joined_path(destination, entry.name),
                        data: entry.data,
                    },
                )
            }
        },
    }
}

/// The entry is lost: it is missing, its name would lead out of the
/// destination, or it is a file whose content could not be read whole. An
/// entry of the signature is left out and not lost.
pub open spec fn lost(e: Option<PackageEntryView>) -> bool {
    match e {
        None => true,
        Some(entry) => !reserved(entry.name) && (!contained(entry.name) || (!marks_directory(
            entry.name,
        ) && entry.damage is Some)),
    }
}

/// The steps that unpack `entries` below `destination`, in the order of the
/// entries.
pub open spec fn planned_steps(
    destination: Seq<char>,
    entries: Seq<Option<PackageEntryView>>,
) -> Seq<ExtractStepView>
    decreases entries.len(),
{
    if entries.len() == 0 {
        Seq::<ExtractStepView>::empty()
    } else {
        let before = planned_steps(destination, entries.drop_last());
        match step_for(destination, entries.last()) {
            Some(step) => before.push(step),
            None => before,
        }
    }
}

/// The number of `entries` that are lost.
pub open spec fn lost_count(entries: Seq<Option<PackageEntryView>>) -> nat
    decreases entries.len(),
{
    if entries.len() == 0 {
        0
    } else if lost(entries.last()) {
        lost_count(entries.drop_last()) + 1
    } else {
        lost_count(entries.drop_last())
    }
}

/// The step that unpacks `e` below `destination`.
pub fn plan_entry(destination: &str, e: &Option<PackageEntry>) -> (r: Option<ExtractStep>)
    ensures
        match r {
            Some(step) => step_for(destination@, entry_of(*e)) == Some(step@),
            None => step_for(destination@, entry_of(*e)) is None,
        },
{
    match e {
        None => None,
        Some(entry) => {
            if is_reserved(entry.name.as_str()) || !is_contained(entry.name.as_str()) {
                return None;
            }
            let path = join_path(destination, entry.name.as_str());
            if is_directory_mark(entry.name.as_str()) {
                Some(ExtractStep::MakeDir { path })
            } else {
                Some(
                    ExtractStep::WriteFile {
                        path,
                        data: vstd::slice::slice_to_vec(entry.data.as_slice()),
                    },
                )
            }
        },
    }
}

/// Whether the name lies under the prefix that holds a package's signature.
pub fn is_reserved(name: &str) -> (r: bool)
    ensures
        r == reserved(name@),
{
    let chars = chars_of(name);
    let prefix = chars_of("META-INF");
    starts_with(chars.as_slice(), prefix.as_slice())
}

/// Whether the name marks a directory.
pub fn is_directory_mark(name: &str) -> (r: bool)
    ensures
        r == marks_directory(name@),
{
    let chars = chars_of(name);
    let mut slash: Vec<char> = Vec::new();
    slash.push('/');
    assert(slash@ =~= seq!['/']);
    ends_with(chars.as_slice(), slash.as_slice())
}

/// Whether the entry is lost.
pub fn is_lost(e: &Option<PackageEntry>) -> (r: bool)
    ensures
        r == lost(entry_of(*e)),
{
    match e {
        None => true,
        Some(entry) => {
            let name = entry.name.as_str();
            !is_reserved(name) && (!is_contained(name) || (!is_directory_mark(name)
                && entry.damage.is_some()))
        },
    }
}

/// Plans the unpacking of `package` below `destination`: every entry but
/// those of the signature is unpacked, directories are created as needed,
/// and an entry that cannot be unpacked holds up none of the others. An
/// entry whose name would lead out of `destination` is not unpacked and
/// counts as lost.
pub fn extract_all(package: &Package, destination: &str) -> (r: ExtractionPlan)
    ensures
        steps_of(r.steps@) == planned_steps(destination@, package@.entries),
        r.lost == lost_count(package@.entries),
{
    let ghost all = package@.entries;
    let mut steps: Vec<ExtractStep> = Vec::new();
    let mut lost_so_far: usize = 0;
    let mut i: usize = 0;
    assert(all.take(0) =~= Seq::<Option<PackageEntryView>>::empty());
    assert(steps_of(steps@) =~= Seq::<ExtractStepView>::empty());
    while i < package.entries.len()
        invariant
            i <= package.entries@.len(),
            all == package@.entries,
            steps_of(steps@) == planned_steps(destination@, all.take(i as int)),
            lost_so_far == lost_count(all.take(i as int)),
            lost_so_far <= i,
        decreases package.entries@.len() - i,
    {
        assert(all.take(i + 1).drop_last() =~= all.take(i as int));
        assert(all.take(i + 1).last() == entry_of(package.entries@[i as int]));
        match plan_entry(destination, &package.entries[i]) {
            Some(step) => {
                let ghost before = steps@;
                steps.push(step);
                assert(steps_of(steps@) =~= steps_of(before).push(step@));
            },
            None => {},
        }
        if is_lost(&package.entries[i]) {
            lost_so_far += 1;
        }
        i += 1;
    }
    assert(all.take(i as int) =~= all);
    ExtractionPlan { steps, lost: lost_so_far }
}

/// Every step of a plan unpacks an entry whose name stays below the
/// destination, at the path of that name below the destination: no step
/// names a path that an entry's name leads out of it.
pub proof fn lemma_steps_stay_inside(
    destination: Seq<char>,
    entries: Seq<Option<PackageEntryView>>,
    k: int,
)
    requires
        0 <= k < planned_steps(destination, entries).len(),
    ensures
        exists|i: int|
            0 <= i < entries.len() && (#[trigger] entries[i]) is Some && contained(
                entries[i].unwrap().name,
            ) && !reserved(entries[i].unwrap().name) && step_for(destination, entries[i]) == Some(
                planned_steps(destination, entries)[k],
            ) && step_path(planned_steps(destination, entries)[k]) == joined_path(
                destination,
                entries[i].unwrap().name,
            ),
    decreases entries.len(),
{
    let shorter = entries.drop_last();
    let before = planned_steps(destination, shorter);
    if k < before.len() {
        lemma_steps_stay_inside(destination, shorter, k);
        let i = choose|i: int|
            0 <= i < shorter.len() && (#[trigger] shorter[i]) is Some && contained(
                shorter[i].unwrap().name,
            ) && !reserved(shorter[i].unwrap().name) && step_for(destination, shorter[i]) == Some(
                before[k],
            ) && step_path(before[k]) == joined_path(destination, shorter[i].unwrap().name);
        assert(entries[i] == shorter[i]);
    } else {
        let last = entries.len() - 1;
        assert(entries[last] == entries.last());
    }
}

/// The path that a step names.
pub open spec fn step_path(step: ExtractStepView) -> Seq<char> {
    match step {
        ExtractStepView::MakeDir { path } => path,
        ExtractStepView::WriteFile { path, .. } => path,
    }
}

} // verus!
