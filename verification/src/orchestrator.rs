//! The decisions of the three top-level operations: which build of which
//! product is meant, in which order the steps of an install or an update
//! follow each other and how each may end, which installed products have a
//! newer build, and what an operation would download and occupy.

use crate::manifest::{decode_file_record, file_record_of, FileRecord, FileRecordView};
use vstd::prelude::*;

verus! {

/// The system a build is made for.
#[derive(Clone, Copy, Debug, PartialEq, Eq, Structural)]
pub enum BuildOs {
    Windows,
    Mac,
    Linux,
}

/// A version of a product, as the library lists it.
#[derive(Debug)]
pub struct ProductVersion {
    pub version: String,
    pub os: BuildOs,
}

/// A product of the library, with the newest version that can be
/// installed, if it has any.
#[derive(Debug)]
pub struct LibraryEntry {
    pub slugged_name: String,
    pub latest: Option<ProductVersion>,
}

/// A concrete installable: a product, one of its versions, and the system
/// it is made for.
#[derive(Debug)]
pub struct BuildDescriptor {
    pub product_slug: String,
    pub build_version: String,
    pub os: BuildOs,
}

/// What is recorded of an installed product.
#[derive(Debug)]
pub struct InstallInfo {
    pub install_path: String,
    pub version: String,
    pub os: BuildOs,
}

/// An installed product: its slug and what is recorded of it.
#[derive(Debug)]
pub struct InstalledProduct {
    pub slug: String,
    pub info: InstallInfo,
}

/// How an operation can fail.
#[derive(Clone, Copy, Debug, PartialEq, Eq, Structural)]
pub enum InstallError {
    /// The product is not in the library.
    NotFoundInLibrary,
    /// The product has no version that could be installed.
    NoSuchVersion,
    /// A manifest could not be fetched.
    ManifestFetchFailed,
    /// A chunk could not be fetched.
    ChunkFetchFailed,
    /// A manifest is no well-formed table of records.
    ManifestParseError,
    /// The file system refused an operation.
    IoError,
    /// A chunk or a file does not have the hash that the manifest names.
    VerificationFailed,
}

/// The mathematical value of a [`ProductVersion`].
pub struct ProductVersionView {
    pub version: Seq<char>,
    pub os: BuildOs,
}

impl View for ProductVersion {
    type V = ProductVersionView;

    open spec fn view(&self) -> ProductVersionView {
        ProductVersionView { version: self.version@, os: self.os }
    }
}

/// The mathematical value of a [`LibraryEntry`].
pub struct LibraryEntryView {
    pub slugged_name: Seq<char>,
    pub latest: Option<ProductVersionView>,
}

impl View for LibraryEntry {
    type V = LibraryEntryView;

    open spec fn view(&self) -> LibraryEntryView {
        LibraryEntryView {
            slugged_name: self.slugged_name@,
            latest: match self.latest {
                Some(v) => Some(v@),
                None => None,
            },
        }
    }
}

impl DeepView for LibraryEntry {
    type V = LibraryEntryView;

    open spec fn deep_view(&self) -> LibraryEntryView {
        self@
    }
}

/// The mathematical value of a [`BuildDescriptor`].
pub struct BuildDescriptorView {
    pub product_slug: Seq<char>,
    pub build_version: Seq<char>,
    pub os: BuildOs,
}

impl View for BuildDescriptor {
    type V = BuildDescriptorView;

    open spec fn view(&self) -> BuildDescriptorView {
        BuildDescriptorView {
            product_slug: self.product_slug@,
            build_version: self.build_version@,
            os: self.os,
        }
    }
}

/// The mathematical value of an [`InstalledProduct`]: its slug, the
/// version that is installed, where it is installed and for which system.
pub struct InstalledProductView {
    pub slug: Seq<char>,
    pub version: Seq<char>,
    pub install_path: Seq<char>,
    pub os: BuildOs,
}

impl View for InstalledProduct {
    type V = InstalledProductView;

    open spec fn view(&self) -> InstalledProductView {
        InstalledProductView {
            slug: self.slug@,
            version: self.info.version@,
            install_path: self.info.install_path@,
            os: self.info.os,
        }
    }
}

impl DeepView for InstalledProduct {
    type V = InstalledProductView;

    open spec fn deep_view(&self) -> InstalledProductView {
        self@
    }
}

/// The first product of the library with the slug `slug`.
pub open spec fn product_of(library: Seq<LibraryEntryView>, slug: Seq<char>) -> Option<
    LibraryEntryView,
>
    decreases library.len(),
{
    if library.len() == 0 {
        None
    } else if library[0].slugged_name == slug {
        Some(library[0])
    } else {
        product_of(library.drop_first(), slug)
    }
}

/// The build that an operation on `slug` is about: the version that was
/// asked for or, where none was, the product's newest.
pub open spec fn build_of(
    library: Seq<LibraryEntryView>,
    slug: Seq<char>,
    selected: Option<ProductVersionView>,
) -> Result<BuildDescriptorView, InstallError> {
    match product_of(library, slug) {
        None => Err(InstallError::NotFoundInLibrary),
        Some(product) => {
            let version = match selected {
                Some(v) => Some(v),
                None => product.latest,
            };
            match version {
                None => Err(InstallError::NoSuchVersion),
                Some(v) => Ok(
                    BuildDescriptorView {
                        product_slug: product.slugged_name,
                        build_version: v.version,
                        os: v.os,
                    },
                ),
            }
        },
    }
}

/// The first product of the library with the given slug.
pub fn find_product<'a>(library: &'a Vec<LibraryEntry>, slug: &String) -> (r: Option<
    &'a LibraryEntry,
>)
    ensures
        match r {
            Some(product) => product_of(library.deep_view(), slug@) == Some(product@),
            None => product_of(library.deep_view(), slug@) is None,
        },
{
    let ghost view = library.deep_view();
    let mut i: usize = 0;
    assert(view.skip(0) =~= view);
    while i < library.len()
        invariant
            i <= library.len(),
            view == library.deep_view(),
            product_of(view, slug@) == product_of(view.skip(i as int), slug@),
        decreases library.len() - i,
    {
        assert(view.skip(i as int)[0] == library@[i as int]@);
        assert(view.skip(i as int).drop_first() =~= view.skip(i + 1));
        if library[i].slugged_name == *slug {
            return Some(&library[i]);
        }
        i += 1;
    }
    None
}

/// Settles which build an operation on `slug` is about.
pub fn resolve_build(
    library: &Vec<LibraryEntry>,
    slug: &String,
    selected: Option<&ProductVersion>,
) -> (r: Result<BuildDescriptor, InstallError>)
    ensures
        match r {
            Ok(build) => build_of(
                library.deep_view(),
                slug@,
                match selected {
                    Some(v) => Some(v@),
                    None => None,
                },
            ) == Ok::<BuildDescriptorView, InstallError>(build@),
            Err(e) => build_of(
                library.deep_view(),
                slug@,
                match selected {
                    Some(v) => Some(v@),
                    None => None,
                },
            ) == Err::<BuildDescriptorView, InstallError>(e),
        },
{
    let product = match find_product(library, slug) {
        Some(product) => product,
        None => {
            return Err(InstallError::NotFoundInLibrary);
        },
    };
    let version: &ProductVersion = match selected {
        Some(v) => v,
        None => match &product.latest {
            Some(v) => v,
            None => {
                return Err(InstallError::NoSuchVersion);
            },
        },
    };
    Ok(
        BuildDescriptor {
            product_slug: product.slugged_name.clone(),
            build_version: version.version.clone(),
            os: version.os,
        },
    )
}

/// What an update of an installed product has to do: nothing where the
/// build that is meant is the one installed, else bring the tree to that
/// build.
pub open spec fn update_target(
    library: Seq<LibraryEntryView>,
    installed: InstalledProductView,
    selected: Option<ProductVersionView>,
) -> Result<Option<BuildDescriptorView>, InstallError> {
    match build_of(library, installed.slug, selected) {
        Err(e) => Err(e),
        Ok(build) => if build.build_version == installed.version {
            Ok(None)
        } else {
            Ok(Some(build))
        },
    }
}

/// Settles what an update of an installed product has to do.
pub fn resolve_update(
    library: &Vec<LibraryEntry>,
    installed: &InstalledProduct,
    selected: Option<&ProductVersion>,
) -> (r: Result<Option<BuildDescriptor>, InstallError>)
    ensures
        ({
            let target = update_target(
                library.deep_view(),
                installed@,
                match selected {
                    Some(v) => Some(v@),
                    None => None,
                },
            );
            match r {
                Ok(Some(build)) => target == Ok::<Option<BuildDescriptorView>, InstallError>(
                    Some(build@),
                ),
                Ok(None) => target == Ok::<Option<BuildDescriptorView>, InstallError>(None),
                Err(e) => target == Err::<Option<BuildDescriptorView>, InstallError>(e),
            }
        }),
{
    match resolve_build(library, &installed.slug, selected) {
        Err(e) => Err(e),
        Ok(build) => if build.build_version == installed.info.version {
            Ok(None)
        } else {
            Ok(Some(build))
        },
    }
}

/// The update that is on offer for one installed product: the newest
/// version of its product, where the library has the product, the product
/// has a newest version, and that is another than the installed one.
pub open spec fn update_for(library: Seq<LibraryEntryView>, installed: InstalledProductView)
    -> Option<(Seq<char>, Seq<char>)> {
    match product_of(library, installed.slug) {
        None => None,
        Some(product) => match product.latest {
            None => None,
            Some(latest) => if latest.version != installed.version {
                Some((installed.slug, latest.version))
            } else {
                None
            },
        },
    }
}

/// The updates on offer: for each installed product that has one, its slug
/// and the newest version, in the order of the installed products.
pub open spec fn updates_of(
    library: Seq<LibraryEntryView>,
    installed: Seq<InstalledProductView>,
) -> Seq<(Seq<char>, Seq<char>)>
    decreases installed.len(),
{
    if installed.len() == 0 {
        Seq::empty()
    } else {
        let before = updates_of(library, installed.drop_last());
        match update_for(library, installed.last()) {
            Some(update) => before.push(update),
            None => before,
        }
    }
}

/// Lists the installed products for which the library has a newer build,
/// each with the version to update to.
pub fn check_updates(library: &Vec<LibraryEntry>, installed: &Vec<InstalledProduct>) -> (r: Vec<
    (String, String),
>)
    ensures
        r.deep_view() == updates_of(library.deep_view(), installed.deep_view()),
{
    let ghost all = installed.deep_view();
    let mut updates: Vec<(String, String)> = Vec::new();
    let mut i: usize = 0;
    assert(all.take(0) =~= Seq::<InstalledProductView>::empty());
    assert(updates.deep_view() =~= Seq::<(Seq<char>, Seq<char>)>::empty());
    while i < installed.len()
        invariant
            i <= installed.len(),
            all == installed.deep_view(),
            updates.deep_view() == updates_of(library.deep_view(), all.take(i as int)),
        decreases installed.len() - i,
    {
        let product = &installed[i];
        assert(all.take(i + 1).drop_last() =~= all.take(i as int));
        assert(all.take(i + 1).last() == product@);
        let ghost before = updates.deep_view();
        match find_product(library, &product.slug) {
            None => {},
            Some(entry) => match &entry.latest {
                None => {},
                Some(latest) => {
                    if latest.version != product.info.version {
                        let update = (product.slug.clone(), latest.version.clone());
                        updates.push(update);
                        assert(updates.deep_view() =~= before.push(
                            (product@.slug, latest@.version),
                        ));
                    }
                },
            },
        }
        i += 1;
    }
    assert(all.take(installed.len() as int) =~= all);
    updates
}

/// The operation that is under way.
#[derive(Clone, Copy, Debug, PartialEq, Eq, Structural)]
pub enum Operation {
    Install,
    Update,
}

/// How an operation ends.
#[derive(Clone, Copy, Debug, PartialEq, Eq, Structural)]
pub enum Outcome {
    /// The build was installed.
    Installed,
    /// The installed tree was brought to the new build.
    Updated,
    /// The sizes were reported; nothing was installed.
    Reported,
    /// The operation was given up.
    Failed(InstallError),
}

/// One step of an operation. The caller performs it and reports how it
/// went.
#[derive(Clone, Copy, Debug, PartialEq, Eq, Structural)]
pub enum Step {
    /// Read the stored file manifest of the installed build.
    ReadInstalledManifest,
    /// Fetch the file manifest of the build.
    FetchManifest,
    /// Store the file manifest of the build.
    StoreManifest,
    /// Fetch the chunk manifest of the build.
    FetchChunks,
    /// Store the chunk manifest of the build.
    StoreChunks,
    /// Read the stored delta manifest of the two builds.
    LoadDelta,
    /// Synthesize the delta manifest and store it.
    MakeDelta,
    /// Read the stored delta chunk manifest of the two builds.
    LoadDeltaChunks,
    /// Synthesize the delta chunk manifest and store it.
    MakeDeltaChunks,
    /// Work out the sizes and report them.
    ReportSizes,
    /// Plan the layout and run the build pipeline.
    Build,
    /// Nothing is left to do.
    Finish(Outcome),
}

/// How a step went.
#[derive(Clone, Copy, Debug, PartialEq, Eq, Structural)]
pub enum StepResult {
    /// The step was done.
    Done,
    /// What was to be read from the store is not there.
    Missing,
    /// The remote side could not be reached or refused.
    Unreachable,
    /// The file system refused.
    Failed,
    /// A manifest could not be read as a table of records.
    Malformed,
    /// A chunk did not have the hash that its identifier names.
    Corrupt,
}

/// The first step of an operation.
pub open spec fn first_step_of(operation: Operation) -> Step {
    match operation {
        Operation::Install => Step::FetchManifest,
        Operation::Update => Step::ReadInstalledManifest,
    }
}

/// The error with which an operation ends when a step went wrong.
pub open spec fn failure_of(step: Step, result: StepResult) -> InstallError {
    match result {
        StepResult::Malformed => InstallError::ManifestParseError,
        StepResult::Corrupt => InstallError::VerificationFailed,
        StepResult::Unreachable => match step {
            Step::Build => InstallError::ChunkFetchFailed,
            _ => InstallError::ManifestFetchFailed,
        },
        _ => match step {
            Step::FetchManifest => InstallError::ManifestFetchFailed,
            Step::FetchChunks => InstallError::ManifestFetchFailed,
            _ => InstallError::IoError,
        },
    }
}

/// What follows when the manifests of a build are fetched and stored: for
/// an install the build, for an update the delta; with `info_only` an
/// install reports the sizes once it has the file manifest.
pub open spec fn after_done(operation: Operation, info_only: bool, step: Step) -> Step {
    match step {
        Step::ReadInstalledManifest => Step::FetchManifest,
        Step::FetchManifest => Step::StoreManifest,
        Step::StoreManifest => if operation == Operation::Install && info_only {
            Step::ReportSizes
        } else {
            Step::FetchChunks
        },
        Step::FetchChunks => Step::StoreChunks,
        Step::StoreChunks => if operation == Operation::Install {
            Step::Build
        } else {
            Step::LoadDelta
        },
        Step::LoadDelta => Step::LoadDeltaChunks,
        Step::MakeDelta => Step::LoadDeltaChunks,
        Step::LoadDeltaChunks => if info_only {
            Step::ReportSizes
        } else {
            Step::Build
        },
        Step::MakeDeltaChunks => if info_only {
            Step::ReportSizes
        } else {
            Step::Build
        },
        Step::ReportSizes => Step::Finish(Outcome::Reported),
        Step::Build => Step::Finish(
            if operation == Operation::Install {
                Outcome::Installed
            } else {
                Outcome::Updated
            },
        ),
        Step::Finish(outcome) => Step::Finish(outcome),
    }
}

/// The step that follows `step` once it went as `result` says. A stored
/// delta that cannot be had is made anew; any other step that went wrong
/// ends the operation.
pub open spec fn step_after(
    operation: Operation,
    info_only: bool,
    step: Step,
    result: StepResult,
) -> Step {
    match step {
        Step::Finish(outcome) => Step::Finish(outcome),
        Step::LoadDelta => if result == StepResult::Done {
            after_done(operation, info_only, step)
        } else {
            Step::MakeDelta
        },
        Step::LoadDeltaChunks => if result == StepResult::Done {
            after_done(operation, info_only, step)
        } else {
            Step::MakeDeltaChunks
        },
        _ => if result == StepResult::Done {
            after_done(operation, info_only, step)
        } else {
            Step::Finish(Outcome::Failed(failure_of(step, result)))
        },
    }
}

/// The first step of an operation.
pub fn first_step(operation: Operation) -> (r: Step)
    ensures
        r == first_step_of(operation),
{
    match operation {
        Operation::Install => Step::FetchManifest,
        Operation::Update => Step::ReadInstalledManifest,
    }
}

/// The step that follows `step` once it went as `result` says.
pub fn next_step(operation: Operation, info_only: bool, step: Step, result: StepResult) -> (r: Step)
    ensures
        r == step_after(operation, info_only, step, result),
{
    let done = result == StepResult::Done;
    let install = operation == Operation::Install;
    match step {
        Step::Finish(outcome) => Step::Finish(outcome),
        Step::LoadDelta => if done {
            Step::LoadDeltaChunks
        } else {
            Step::MakeDelta
        },
        Step::LoadDeltaChunks => if !done {
            Step::MakeDeltaChunks
        } else if info_only {
            Step::ReportSizes
        } else {
            Step::Build
        },
        _ => if !done {
            let error = match result {
                StepResult::Malformed => InstallError::ManifestParseError,
                StepResult::Corrupt => InstallError::VerificationFailed,
                StepResult::Unreachable => match step {
                    Step::Build => InstallError::ChunkFetchFailed,
                    _ => InstallError::ManifestFetchFailed,
                },
                _ => match step {
                    Step::FetchManifest => InstallError::ManifestFetchFailed,
                    Step::FetchChunks => InstallError::ManifestFetchFailed,
                    _ => InstallError::IoError,
                },
            };
            Step::Finish(Outcome::Failed(error))
        } else {
            match step {
                Step::ReadInstalledManifest => Step::FetchManifest,
                Step::FetchManifest => Step::StoreManifest,
                Step::StoreManifest => if install && info_only {
                    Step::ReportSizes
                } else {
                    Step::FetchChunks
                },
                Step::FetchChunks => Step::StoreChunks,
                Step::StoreChunks => if install {
                    Step::Build
                } else {
                    Step::LoadDelta
                },
                Step::MakeDelta => Step::LoadDeltaChunks,
                Step::MakeDeltaChunks => if info_only {
                    Step::ReportSizes
                } else {
                    Step::Build
                },
                Step::ReportSizes => Step::Finish(Outcome::Reported),
                _ => Step::Finish(
                    if install {
                        Outcome::Installed
                    } else {
                        Outcome::Updated
                    },
                ),
            }
        },
    }
}

/// The step that an operation has come to after its steps so far went as
/// `results` say.
pub open spec fn step_reached(operation: Operation, info_only: bool, results: Seq<StepResult>)
    -> Step
    decreases results.len(),
{
    if results.len() == 0 {
        first_step_of(operation)
    } else {
        step_after(
            operation,
            info_only,
            step_reached(operation, info_only, results.drop_last()),
            results.last(),
        )
    }
}

/// The steps at which an operation that only reports sizes can be.
pub open spec fn reporting_step(operation: Operation, step: Step) -> bool {
    match operation {
        Operation::Install => step == Step::FetchManifest || step == Step::StoreManifest || step
            == Step::ReportSizes || step is Finish,
        Operation::Update => step != Step::Build,
    }
}

/// However its steps go, an operation that only reports sizes never comes
/// to build, and never fetches the chunk manifest of an install.
pub proof fn lemma_report_never_builds(operation: Operation, results: Seq<StepResult>)
    ensures
        reporting_step(operation, step_reached(operation, true, results)),
        step_reached(operation, true, results) != Step::Build,
    decreases results.len(),
{
    if results.len() > 0 {
        lemma_report_never_builds(operation, results.drop_last());
    }
}

/// However its steps go, an operation that is to build never reports
/// sizes.
pub proof fn lemma_build_never_reports(operation: Operation, results: Seq<StepResult>)
    ensures
        step_reached(operation, false, results) != Step::ReportSizes,
    decreases results.len(),
{
    if results.len() > 0 {
        lemma_build_never_reports(operation, results.drop_last());
    }
}

/// A stored delta that is missing or cannot be read is made anew and never
/// ends the update.
pub proof fn lemma_missing_delta_is_regenerated(info_only: bool, result: StepResult)
    requires
        result != StepResult::Done,
    ensures
        step_after(Operation::Update, info_only, Step::LoadDelta, result) == Step::MakeDelta,
        step_after(Operation::Update, info_only, Step::LoadDeltaChunks, result)
            == Step::MakeDeltaChunks,
{
}

/// The size of all entries of a manifest together.
pub open spec fn disk_size(m: Seq<FileRecordView>) -> nat
    decreases m.len(),
{
    if m.len() == 0 {
        0
    } else {
        disk_size(m.drop_last()) + m.last().size_in_bytes as nat
    }
}

/// The size of the entries of a manifest that are not removed: what an
/// operation has to download.
pub open spec fn download_size(m: Seq<FileRecordView>) -> nat
    decreases m.len(),
{
    if m.len() == 0 {
        0
    } else if m.last().is_removed() {
        download_size(m.drop_last())
    } else {
        download_size(m.drop_last()) + m.last().size_in_bytes as nat
    }
}

/// The records of the rows that are file records; other rows are left out.
pub open spec fn readable_records(rows: Seq<Seq<Seq<u8>>>) -> Seq<FileRecordView>
    decreases rows.len(),
{
    if rows.len() == 0 {
        Seq::empty()
    } else {
        match file_record_of(rows.last()) {
            Some(record) => readable_records(rows.drop_last()).push(record),
            None => readable_records(rows.drop_last()),
        }
    }
}

/// No manifest weighs more than its length allows.
pub proof fn lemma_size_bounds(m: Seq<FileRecordView>)
    ensures
        download_size(m) <= disk_size(m) <= m.len() * u64::MAX,
    decreases m.len(),
{
    if m.len() > 0 {
        lemma_size_bounds(m.drop_last());
        assert((m.len() - 1) * u64::MAX + u64::MAX == m.len() * u64::MAX) by (nonlinear_arith);
    }
}

/// What an operation would download and occupy.
#[derive(Clone, Copy, Debug, PartialEq, Eq, Structural)]
pub struct SizeReport {
    /// The bytes to download.
    pub download: u128,
    /// The bytes that the new build occupies on disk.
    pub disk: u128,
    /// By how many bytes the occupied space changes.
    pub needed: u128,
    /// Whether the occupied space shrinks by `needed` rather than grows.
    pub shrinks: bool,
}

/// The sizes of an install of the build with the manifest `new`.
pub open spec fn install_sizes(new: Seq<FileRecordView>) -> SizeReport {
    SizeReport {
        download: disk_size(new) as u128,
        disk: disk_size(new) as u128,
        needed: disk_size(new) as u128,
        shrinks: false,
    }
}

/// The sizes of an update from the build with the manifest `old` to the
/// one with the manifest `new`, whose delta is `delta`.
pub open spec fn update_sizes(
    delta: Seq<FileRecordView>,
    old: Seq<FileRecordView>,
    new: Seq<FileRecordView>,
) -> SizeReport {
    SizeReport {
        download: download_size(delta) as u128,
        disk: disk_size(new) as u128,
        needed: if disk_size(new) < disk_size(old) {
            (disk_size(old) - disk_size(new)) as u128
        } else {
            (disk_size(new) - disk_size(old)) as u128
        },
        shrinks: disk_size(new) < disk_size(old),
    }
}

/// Reads the rows that are file records and leaves the others out.
pub fn read_leniently(rows: &Vec<Vec<Vec<u8>>>) -> (r: Vec<FileRecord>)
    ensures
        r.deep_view() == readable_records(rows.deep_view()),
{
    let ghost table = rows.deep_view();
    let mut records: Vec<FileRecord> = Vec::new();
    let mut i: usize = 0;
    assert(table.take(0) =~= Seq::<Seq<Seq<u8>>>::empty());
    assert(records.deep_view() =~= Seq::<FileRecordView>::empty());
    while i < rows.len()
        invariant
            i <= rows.len(),
            table == rows.deep_view(),
            records.deep_view() == readable_records(table.take(i as int)),
        decreases rows.len() - i,
    {
        assert(table.take(i + 1).drop_last() =~= table.take(i as int));
        assert(table.take(i + 1).last() == rows@[i as int].deep_view());
        let ghost before = records.deep_view();
        match decode_file_record(&rows[i]) {
            Some(record) => {
                let ghost value = record@;
                records.push(record);
                assert(records.deep_view() =~= before.push(value));
            },
            None => {},
        }
        i += 1;
    }
    assert(table.take(rows.len() as int) =~= table);
    records
}

/// The size of all entries of a manifest together.
pub fn measure_disk(records: &Vec<FileRecord>) -> (r: u128)
    ensures
        r == disk_size(records.deep_view()),
{
    let ghost all = records.deep_view();
    let mut total: u128 = 0;
    let mut i: usize = 0;
    assert(all.take(0) =~= Seq::<FileRecordView>::empty());
    while i < records.len()
        invariant
            i <= records.len(),
            all == records.deep_view(),
            total == disk_size(all.take(i as int)),
        decreases records.len() - i,
    {
        assert(all.take(i + 1).drop_last() =~= all.take(i as int));
        assert(all.take(i + 1).last() == records@[i as int]@);
        proof {
            lemma_size_bounds(all.take(i as int));
            assert(i * u64::MAX + u64::MAX <= usize::MAX * u64::MAX + u64::MAX)
                by (nonlinear_arith)
                requires
                    i <= usize::MAX,
            ;
        }
        total = total + records[i].size_in_bytes as u128;
        i += 1;
    }
    assert(all.take(records.len() as int) =~= all);
    total
}

/// The size of the entries of a manifest that are not removed.
pub fn measure_download(records: &Vec<FileRecord>) -> (r: u128)
    ensures
        r == download_size(records.deep_view()),
{
    let ghost all = records.deep_view();
    let mut total: u128 = 0;
    let mut i: usize = 0;
    assert(all.take(0) =~= Seq::<FileRecordView>::empty());
    while i < records.len()
        invariant
            i <= records.len(),
            all == records.deep_view(),
            total == download_size(all.take(i as int)),
        decreases records.len() - i,
    {
        assert(all.take(i + 1).drop_last() =~= all.take(i as int));
        assert(all.take(i + 1).last() == records@[i as int]@);
        proof {
            lemma_size_bounds(all.take(i as int));
            assert(i * u64::MAX + u64::MAX <= usize::MAX * u64::MAX + u64::MAX)
                by (nonlinear_arith)
                requires
                    i <= usize::MAX,
            ;
        }
        if !records[i].is_removed() {
            total = total + records[i].size_in_bytes as u128;
        }
        i += 1;
    }
    assert(all.take(records.len() as int) =~= all);
    total
}

/// What an install of the build with the manifest `new` would download and
/// occupy.
pub fn estimate_install(new: &Vec<FileRecord>) -> (r: SizeReport)
    ensures
        r == install_sizes(new.deep_view()),
{
    let size = measure_disk(new);
    SizeReport { download: size, disk: size, needed: size, shrinks: false }
}

/// What an update would download and occupy, and by how much the occupied
/// space changes.
pub fn estimate_update(delta: &Vec<FileRecord>, old: &Vec<FileRecord>, new: &Vec<FileRecord>) -> (r:
    SizeReport)
    ensures
        r == update_sizes(delta.deep_view(), old.deep_view(), new.deep_view()),
{
    let download = measure_download(delta);
    let disk = measure_disk(new);
    let before = measure_disk(old);
    if disk < before {
        SizeReport { download, disk, needed: before - disk, shrinks: true }
    } else {
        SizeReport { download, disk, needed: disk - before, shrinks: false }
    }
}

} // verus!
