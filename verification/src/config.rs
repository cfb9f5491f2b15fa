//! Package-derived names and progress tuning constants.

use vstd::prelude::*;

verus! {

/// Names derived from the package name: the index file, the probe
/// directory, and the results file.
pub struct PackagePaths {
    pkg_name: String,
    db_filename: String,
    probe_dir_name: String,
    results_filename: String,
}

impl PackagePaths {
    /// Build the package-derived names.
    pub fn get() -> (r: PackagePaths)
        ensures
            r.spec_pkg_name() == "nefaxer"@,
            r.spec_output_filename() == ".nefaxer"@,
            r.spec_probe_dir_name() == ".nefaxer_probe"@,
            r.spec_results_filename() == "nefaxer.results"@,
    {
        PackagePaths {
            pkg_name: String::from_str("nefaxer"),
            db_filename: String::from_str(".nefaxer"),
            probe_dir_name: String::from_str(".nefaxer_probe"),
            results_filename: String::from_str("nefaxer.results"),
        }
    }

    /// The spec-level package name.
    pub closed spec fn spec_pkg_name(&self) -> Seq<char> {
        self.pkg_name@
    }

    /// The spec-level index filename.
    pub closed spec fn spec_output_filename(&self) -> Seq<char> {
        self.db_filename@
    }

    /// The spec-level probe directory name.
    pub closed spec fn spec_probe_dir_name(&self) -> Seq<char> {
        self.probe_dir_name@
    }

    /// The spec-level results filename.
    pub closed spec fn spec_results_filename(&self) -> Seq<char> {
        self.results_filename@
    }

    pub fn pkg_name(&self) -> (r: &str)
        ensures
            r@ == self.spec_pkg_name(),
    {
        self.pkg_name.as_str()
    }

    /// The index file's name (a dot file under the indexed root).
    pub fn output_filename(&self) -> (r: &str)
        ensures
            r@ == self.spec_output_filename(),
    {
        self.db_filename.as_str()
    }

    /// The name of the temporary directory the network probe writes under
    /// the root.
    pub fn probe_dir_name(&self) -> (r: &str)
        ensures
            r@ == self.spec_probe_dir_name(),
    {
        self.probe_dir_name.as_str()
    }

    /// The name of the file large change lists are written to.
    pub fn results_filename(&self) -> (r: &str)
        ensures
            r@ == self.spec_results_filename(),
    {
        self.results_filename.as_str()
    }

    /// Names excluded from the walk by default: the probe directory and the
    /// results file. The index file itself is excluded by its canonical path
    /// in the walk filter, not here.
    pub fn default_exclude_patterns(&self) -> (r: Vec<String>)
        ensures
            r.deep_view() == seq![self.spec_probe_dir_name(), self.spec_results_filename()],
    {
        let mut r: Vec<String> = Vec::new();
        r.push(self.probe_dir_name.clone());
        r.push(self.results_filename.clone());
        assert(r.deep_view() =~= seq![self.spec_probe_dir_name(), self.spec_results_filename()]);
        r
    }
}

/// Progress bar and adaptive chunk tuning.
pub struct ProgressConsts;

impl ProgressConsts {
    /// Batch size for progress bar updates during the walk.
    pub const PROGRESS_UPDATE_BATCH_SIZE: usize = 100;

    /// Target number of progress updates across all workers.
    pub const ADAPTIVE_PROGRESS_TARGET_UPDATES: usize = 100;

    /// Minimum chunk size for adaptive progress.
    pub const ADAPTIVE_CHUNK_MIN: usize = 10;
}

/// Compute the chunk size for batched progress updates in a parallel loop:
/// about `target_updates` updates in total, spread over the workers, never
/// below the minimum chunk.
pub fn adaptive_progress_chunk_size(
    total_items: usize,
    num_workers: usize,
    target_updates: usize,
) -> (r: usize)
    requires
        num_workers >= 1,
        target_updates >= 1,
        num_workers * target_updates <= usize::MAX,
    ensures
        r == if total_items as int / (num_workers as int * target_updates as int)
            >= ProgressConsts::ADAPTIVE_CHUNK_MIN as int {
            total_items as int / (num_workers as int * target_updates as int)
        } else {
            ProgressConsts::ADAPTIVE_CHUNK_MIN as int
        },
{
    assert(num_workers * target_updates >= 1) by (nonlinear_arith)
        requires
            num_workers >= 1,
            target_updates >= 1,
    ;
    let per = total_items / (num_workers * target_updates);
    if per >= ProgressConsts::ADAPTIVE_CHUNK_MIN {
        per
    } else {
        ProgressConsts::ADAPTIVE_CHUNK_MIN
    }
}

} // verus!
