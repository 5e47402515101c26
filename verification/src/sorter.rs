//! The sorting engine: traversal of a directory snapshot, per-file
//! relocation plans, and the two execution modes (simulate and execute)
//! with their statistics.
//!
//! Paths are sequences of component names relative to the target directory.

use crate::config::{
    cat_index, cat_index_spec, is_category_folder_name, is_category_name, Category,
};
use crate::file_ops::{
    extension_of_path, generate_unique_path, is_resolution, move_file_with_dedup, MoveResult,
};
use crate::tree::{child_dir_names, names_under, path_exists, path_exists_exec, DirEntry, FsNode};
use vstd::prelude::*;

verus! {

/// Configuration of one sorting run.
#[derive(Clone, Debug)]
pub struct SorterConfig {
    /// The target directory, for display; the engine itself works on a
    /// snapshot of its contents.
    pub target_dir: String,
    /// Simulate instead of moving.
    pub dry_run: bool,
    /// Descend into subdirectories.
    pub recursive: bool,
}

/// A proposed, not-yet-applied relocation of one file.
#[derive(Debug)]
pub struct FilePlan {
    /// The file's path, as components relative to the target directory.
    pub source: Vec<String>,
    /// The prospective destination (category folder, file name), before
    /// collision resolution.
    pub destination: Vec<String>,
    /// The category the file classifies to.
    pub category: Category,
    /// Whether the prospective destination already existed at plan time.
    pub has_conflict: bool,
}

/// Statistics of one sorting run.
#[derive(Debug)]
pub struct SortStats {
    /// Files found to process.
    pub total_files: usize,
    /// Files moved (or, in a dry run, that would move).
    pub moved_files: usize,
    /// Files renamed to avoid a collision.
    pub renamed_files: usize,
    /// Files skipped.
    pub skipped_files: usize,
    /// Files whose move failed.
    pub error_count: usize,
    /// Per-category file counts, indexed as `Category::all()` orders them.
    pub category_counts: Vec<usize>,
}

/// The file name of a relative path: its last component, or a placeholder
/// for the (degenerate) empty path.
pub open spec fn filename_of(p: Seq<Seq<char>>) -> Seq<char> {
    if p.len() > 0 {
        p.last()
    } else {
        "unknown"@
    }
}

/// The category a path's file name classifies to.
pub open spec fn categorize_spec(p: Seq<char>) -> Category {
    match extension_of_path(p) {
        Some(e) => crate::config::category_of(e),
        None => Category::Others,
    }
}

/// How many of the first `i` plans fall in category `c`.
pub open spec fn count_category(plans: Seq<FilePlan>, i: int, c: Category) -> int
    decreases i,
{
    if i <= 0 {
        0
    } else {
        count_category(plans, i - 1, c) + if plans[i - 1].category == c {
            1int
        } else {
            0int
        }
    }
}

/// How many of the first `i` plans carry a conflict flag.
pub open spec fn count_conflicts(plans: Seq<FilePlan>, i: int) -> int
    decreases i,
{
    if i <= 0 {
        0
    } else {
        count_conflicts(plans, i - 1) + if plans[i - 1].has_conflict {
            1int
        } else {
            0int
        }
    }
}

/// How many of the first `i` results record a rename.
pub open spec fn count_renamed(results: Seq<MoveResult>, i: int) -> int
    decreases i,
{
    if i <= 0 {
        0
    } else {
        count_renamed(results, i - 1) + if results[i - 1].was_renamed {
            1int
        } else {
            0int
        }
    }
}

/// Every per-`i` count is at most `i`.
proof fn lemma_counts_bounded(plans: Seq<FilePlan>, results: Seq<MoveResult>, i: int, c: Category)
    requires
        0 <= i,
    ensures
        count_category(plans, i, c) <= i,
        count_conflicts(plans, i) <= i,
        count_renamed(results, i) <= i,
        0 <= count_category(plans, i, c),
        0 <= count_conflicts(plans, i),
        0 <= count_renamed(results, i),
    decreases i,
{
    if i > 0 {
        lemma_counts_bounded(plans, results, i - 1, c);
    }
}

impl SortStats {
    /// Well-formed statistics hold one counter per category.
    pub open spec fn wf(self) -> bool {
        self.category_counts@.len() == Category::all_spec().len()
    }

    /// The counter of category `c`.
    pub open spec fn count_of(self, c: Category) -> int {
        self.category_counts@[cat_index_spec(c)] as int
    }

    /// True when every counter is zero.
    pub open spec fn is_zeroed(self) -> bool {
        &&& self.total_files == 0
        &&& self.moved_files == 0
        &&& self.renamed_files == 0
        &&& self.skipped_files == 0
        &&& self.error_count == 0
        &&& forall|c: Category| self.count_of(c) == 0
    }

    /// Fresh statistics with every counter at zero.
    pub fn new() -> (r: SortStats)
        ensures
            r.wf(),
            r.is_zeroed(),
    {
        let category_counts: Vec<usize> = vec![0, 0, 0, 0, 0, 0, 0];
        let r = SortStats {
            total_files: 0,
            moved_files: 0,
            renamed_files: 0,
            skipped_files: 0,
            error_count: 0,
            category_counts,
        };
        proof {
            assert(r.category_counts@.len() == 7);
            assert(forall|c: Category| 0 <= #[trigger] cat_index_spec(c) < 7);
        }
        r
    }

    /// The counter of category `c`.
    pub fn count_for(&self, c: Category) -> (r: usize)
        requires
            self.wf(),
        ensures
            r == self.count_of(c),
    {
        let i = cat_index(c);
        self.category_counts[i]
    }

    /// Accounts one successful move into category `c`.
    pub fn record_success(&mut self, c: Category, was_renamed: bool)
        requires
            old(self).wf(),
            old(self).moved_files < usize::MAX,
            old(self).renamed_files < usize::MAX,
            old(self).count_of(c) < usize::MAX,
        ensures
            final(self).wf(),
            final(self).moved_files == old(self).moved_files + 1,
            final(self).renamed_files == old(self).renamed_files + if was_renamed {
                1int
            } else {
                0int
            },
            final(self).count_of(c) == old(self).count_of(c) + 1,
            forall|d: Category|
                d != c ==> final(self).count_of(d) == old(self).count_of(d),
            final(self).total_files == old(self).total_files,
            final(self).skipped_files == old(self).skipped_files,
            final(self).error_count == old(self).error_count,
    {
        self.moved_files = self.moved_files + 1;
        if was_renamed {
            self.renamed_files = self.renamed_files + 1;
        }
        let i = cat_index(c);
        let v = self.category_counts[i] + 1;
        self.category_counts[i] = v;
        proof {
            assert(forall|d: Category|
                d != c ==> #[trigger] cat_index_spec(d) != cat_index_spec(c));
        }
    }

    /// Accounts one failed move.
    pub fn record_error(&mut self)
        requires
            old(self).error_count < usize::MAX,
        ensures
            final(self).error_count == old(self).error_count + 1,
            final(self).wf() == old(self).wf(),
            final(self).total_files == old(self).total_files,
            final(self).moved_files == old(self).moved_files,
            final(self).renamed_files == old(self).renamed_files,
            final(self).skipped_files == old(self).skipped_files,
            final(self).category_counts == old(self).category_counts,
    {
        self.error_count = self.error_count + 1;
    }

    /// Sets the number of files found.
    pub fn set_total(&mut self, total: usize)
        ensures
            final(self).total_files == total,
            final(self).wf() == old(self).wf(),
            final(self).moved_files == old(self).moved_files,
            final(self).renamed_files == old(self).renamed_files,
            final(self).skipped_files == old(self).skipped_files,
            final(self).error_count == old(self).error_count,
            final(self).category_counts == old(self).category_counts,
    {
        self.total_files = total;
    }
}

impl Default for SortStats {
    /// Statistics with every counter at zero.
    fn default() -> (r: SortStats)
        ensures
            r.wf(),
            r.is_zeroed(),
    {
        SortStats::new()
    }
}

/// The sorting engine for one run.
pub struct Sorter {
    /// The run's configuration.
    pub config: SorterConfig,
}

impl Sorter {
    /// A sorter for the given configuration.
    pub fn new(config: SorterConfig) -> (r: Sorter)
        ensures
            r.config == config,
    {
        Sorter { config }
    }

    /// True when `path` (relative to the target directory) lies directly
    /// inside a top-level category folder.
    pub open spec fn is_category_folder_spec(path: Seq<Seq<char>>) -> bool {
        path.len() == 2 && is_category_name(path[0])
    }

    /// True when `path` lies directly inside a top-level category folder;
    /// such files are already sorted output and are skipped.
    pub fn is_category_folder(&self, path: &Vec<String>) -> (r: bool)
        ensures
            r == Self::is_category_folder_spec(path.deep_view()),
    {
        if path.len() == 2 {
            let r = is_category_folder_name(path[0].as_str());
            proof {
                assert(path.deep_view()[0] == path@[0]@);
            }
            r
        } else {
            false
        }
    }

    /// Classifies one file by the extension of its name.
    pub fn categorize_file(&self, filename: &str) -> (r: Category)
        ensures
            r == categorize_spec(filename@),
    {
        match crate::file_ops::get_extension(filename) {
            Some(ext) => crate::config::get_category(ext.as_str()),
            None => crate::config::get_default_category(),
        }
    }

    /// Collects the files to sort from a snapshot of the target directory,
    /// in entry order.
    pub fn collect_files(&self, entries: &Vec<DirEntry>) -> (r: Vec<Vec<String>>)
        ensures
            r.deep_view() == collect_from(*entries, 0, Seq::empty(), self.config.recursive),
    {
        let mut out: Vec<Vec<String>> = Vec::new();
        let prefix: Vec<String> = Vec::new();
        proof {
            assert(prefix.deep_view() =~= Seq::<Seq<char>>::empty());
            assert(out.deep_view() =~= Seq::<Seq<Seq<char>>>::empty());
        }
        collect_into(entries, &prefix, self.config.recursive, &mut out);
        proof {
            assert(out.deep_view() =~= Seq::<Seq<Seq<char>>>::empty() + out.deep_view());
        }
        out
    }
}

/// What one relocation plan must record for one collected file: the source
/// itself, the category its file name classifies to, the prospective
/// destination inside that category's folder, and whether that exact
/// destination already exists in the snapshot.
pub open spec fn plan_for(root: Seq<DirEntry>, src: Seq<Seq<char>>, p: FilePlan) -> bool {
    let fname = filename_of(src);
    &&& p.source.deep_view() == src
    &&& p.category == categorize_spec(fname)
    &&& p.destination.deep_view() == seq![p.category.folder_name_spec(), fname]
    &&& p.has_conflict == path_exists(root, p.destination.deep_view())
}

/// Copies a path.
fn clone_path(p: &Vec<String>) -> (r: Vec<String>)
    ensures
        r.deep_view() == p.deep_view(),
{
    let mut r: Vec<String> = Vec::new();
    let mut i: usize = 0;
    while i < p.len()
        invariant
            i <= p@.len(),
            r@.len() == i,
            forall|k: int| 0 <= k < i ==> r@[k]@ == p@[k]@,
        decreases p@.len() - i,
    {
        r.push(p[i].clone());
        i = i + 1;
    }
    proof {
        assert(r.deep_view() =~= p.deep_view());
    }
    r
}

impl Sorter {
    /// Builds one relocation plan per collected file.
    pub fn create_plans(&self, root: &Vec<DirEntry>, files: &Vec<Vec<String>>) -> (r: Vec<
        FilePlan,
    >)
        ensures
            r@.len() == files@.len(),
            forall|i: int|
                0 <= i < files@.len() ==> plan_for(root@, files@[i].deep_view(), r@[i]),
    {
        let mut r: Vec<FilePlan> = Vec::new();
        let mut i: usize = 0;
        while i < files.len()
            invariant
                i <= files@.len(),
                r@.len() == i,
                forall|j: int| 0 <= j < i ==> plan_for(root@, files@[j].deep_view(), r@[j]),
            decreases files@.len() - i,
        {
            let f = &files[i];
            let source = clone_path(f);
            let fname: &str = if f.len() > 0 {
                f[f.len() - 1].as_str()
            } else {
                "unknown"
            };
            proof {
                assert(fname@ == filename_of(f.deep_view()));
            }
            let category = self.categorize_file(fname);
            let folder = category.folder_name();
            let destination: Vec<String> = vec![String::from_str(folder), String::from_str(fname)];
            proof {
                assert(destination.deep_view() =~= seq![category.folder_name_spec(), fname@]);
            }
            let has_conflict = path_exists_exec(root, &destination);
            r.push(FilePlan { source, destination, category, has_conflict });
            i = i + 1;
        }
        r
    }
}

/// The destinations of those of the first `i` results whose plans fall in
/// category `c`, in order.
pub open spec fn dests_of_category(
    plans: Seq<FilePlan>,
    results: Seq<MoveResult>,
    i: int,
    c: Category,
) -> Seq<Seq<char>>
    decreases i,
{
    if i <= 0 {
        Seq::empty()
    } else {
        dests_of_category(plans, results, i - 1, c) + if plans[i - 1].category == c {
            seq![results[i - 1].destination@]
        } else {
            Seq::empty()
        }
    }
}

/// The names the destination folder of category `c` holds when the `i`-th
/// planned move executes: the snapshot's names plus the destinations of
/// every earlier move into the same folder.
pub open spec fn names_at_step(
    root: Seq<DirEntry>,
    plans: Seq<FilePlan>,
    results: Seq<MoveResult>,
    i: int,
    c: Category,
) -> Seq<Seq<char>> {
    names_under(root, c.folder_name_spec()) + dests_of_category(plans, results, i, c)
}

/// The first `i` entries alone decide `dests_of_category` and
/// `count_renamed`.
proof fn lemma_results_prefix(
    plans: Seq<FilePlan>,
    r1: Seq<MoveResult>,
    r2: Seq<MoveResult>,
    i: int,
    c: Category,
)
    requires
        forall|j: int| 0 <= j < i ==> r1[j] == r2[j],
    ensures
        dests_of_category(plans, r1, i, c) == dests_of_category(plans, r2, i, c),
        count_renamed(r1, i) == count_renamed(r2, i),
    decreases i,
{
    if i > 0 {
        lemma_results_prefix(plans, r1, r2, i - 1, c);
    }
}

/// What the executor's outcome for one plan must record, given the names
/// visible in the destination folder at that step.
pub open spec fn move_outcome(names: Seq<Seq<char>>, src: Seq<Seq<char>>, mr: MoveResult) -> bool {
    let fname = filename_of(src);
    &&& mr.source@ == fname
    &&& is_resolution(names, fname, mr.destination@)
    &&& mr.was_renamed == (mr.destination@ != fname)
}

/// Builds the per-category vectors of names currently inside each category
/// folder of the snapshot.
fn initial_dir_names(root: &Vec<DirEntry>) -> (r: Vec<Vec<String>>)
    ensures
        r@.len() == Category::all_spec().len(),
        forall|c: Category| #![trigger cat_index_spec(c)]
            r@[cat_index_spec(c)].deep_view() == names_under(root@, c.folder_name_spec()),
{
    let cats = Category::all();
    let mut r: Vec<Vec<String>> = Vec::new();
    let mut k: usize = 0;
    while k < cats.len()
        invariant
            cats@ == Category::all_spec(),
            k <= cats@.len(),
            r@.len() == k,
            forall|j: int|
                0 <= j < k ==> r@[j].deep_view() == names_under(
                    root@,
                    Category::all_spec()[j].folder_name_spec(),
                ),
        decreases cats@.len() - k,
    {
        let names = child_dir_names(root, cats[k].folder_name());
        r.push(names);
        k = k + 1;
    }
    proof {
        assert forall|c: Category| #![trigger cat_index_spec(c)]
            r@[cat_index_spec(c)].deep_view() == names_under(
            root@,
            c.folder_name_spec(),
        ) by {
            crate::config::lemma_cat_index(c);
        }
    }
    r
}

impl Sorter {
    /// Simulates a run: accounts every plan as a move, counts a rename for
    /// every conflicted plan, and resolves each conflicted destination
    /// against the snapshot for display -- without any mutation anywhere.
    pub fn execute_dry_run(&self, root: &Vec<DirEntry>, plans: &Vec<FilePlan>) -> (r: (
        SortStats,
        Vec<MoveResult>,
    ))
        ensures
            r.0.wf(),
            r.0.total_files == plans@.len(),
            r.0.moved_files == plans@.len(),
            r.0.skipped_files == 0,
            r.0.error_count == 0,
            r.0.renamed_files == count_conflicts(plans@, plans@.len() as int),
            forall|c: Category| #![trigger cat_index_spec(c)]
                r.0.count_of(c) == count_category(plans@, plans@.len() as int, c),
            r.1@.len() == plans@.len(),
            forall|i: int|
                0 <= i < plans@.len() ==> {
                    let p = #[trigger] plans@[i];
                    let fname = filename_of(p.source.deep_view());
                    &&& r.1@[i].source@ == fname
                    &&& r.1@[i].was_renamed == p.has_conflict
                    &&& p.has_conflict ==> is_resolution(
                        names_under(root@, p.category.folder_name_spec()),
                        fname,
                        r.1@[i].destination@,
                    )
                    &&& !p.has_conflict ==> r.1@[i].destination@ == fname
                },
    {
        let mut stats = SortStats::new();
        proof {
            assert(forall|c: Category| #![trigger cat_index_spec(c)] stats.count_of(c) == 0);
        }
        stats.set_total(plans.len());
        let dirs = initial_dir_names(root);
        let mut results: Vec<MoveResult> = Vec::new();
        let mut i: usize = 0;
        while i < plans.len()
            invariant
                stats.wf(),
                i <= plans@.len(),
                results@.len() == i,
                stats.total_files == plans@.len(),
                stats.moved_files == i,
                stats.skipped_files == 0,
                stats.error_count == 0,
                stats.renamed_files == count_conflicts(plans@, i as int),
                forall|c: Category| #![trigger cat_index_spec(c)]
                    stats.count_of(c) == count_category(plans@, i as int, c),
                dirs@.len() == Category::all_spec().len(),
                forall|c: Category| #![trigger cat_index_spec(c)]
                    dirs@[cat_index_spec(c)].deep_view() == names_under(
                        root@,
                        c.folder_name_spec(),
                    ),
                forall|j: int|
                    0 <= j < i ==> {
                        let p = #[trigger] plans@[j];
                        let fname = filename_of(p.source.deep_view());
                        &&& results@[j].source@ == fname
                        &&& results@[j].was_renamed == p.has_conflict
                        &&& p.has_conflict ==> is_resolution(
                            names_under(root@, p.category.folder_name_spec()),
                            fname,
                            results@[j].destination@,
                        )
                        &&& !p.has_conflict ==> results@[j].destination@ == fname
                    },
            decreases plans@.len() - i,
        {
            let plan = &plans[i];
            let fname: &str = if plan.source.len() > 0 {
                plan.source[plan.source.len() - 1].as_str()
            } else {
                "unknown"
            };
            proof {
                assert(fname@ == filename_of(plans@[i as int].source.deep_view()));
                lemma_counts_bounded(plans@, results@, i as int, plans@[i as int].category);
            }
            let ci = cat_index(plan.category);
            let destination = if plan.has_conflict {
                generate_unique_path(&dirs[ci], fname)
            } else {
                String::from_str(fname)
            };
            let mr = MoveResult {
                source: String::from_str(fname),
                destination,
                was_renamed: plan.has_conflict,
            };
            results.push(mr);
            stats.record_success(plan.category, plan.has_conflict);
            i = i + 1;
        }
        (stats, results)
    }
}

impl Sorter {
    /// Applies every plan, on the assumption that each underlying move
    /// succeeds: each destination is resolved against the names its
    /// category folder holds at that step -- the snapshot's names plus
    /// every earlier planned arrival -- and the statistics account every
    /// move.  The caller carries the returned moves out in order.
    pub fn execute_move(&self, root: &Vec<DirEntry>, plans: &Vec<FilePlan>) -> (r: (
        SortStats,
        Vec<MoveResult>,
    ))
        ensures
            r.0.wf(),
            r.0.total_files == plans@.len(),
            r.0.moved_files == plans@.len(),
            r.0.skipped_files == 0,
            r.0.error_count == 0,
            r.1@.len() == plans@.len(),
            r.0.renamed_files == count_renamed(r.1@, plans@.len() as int),
            forall|c: Category| #![trigger cat_index_spec(c)]
                r.0.count_of(c) == count_category(plans@, plans@.len() as int, c),
            forall|i: int|
                0 <= i < plans@.len() ==> move_outcome(
                    names_at_step(root@, plans@, r.1@, i, #[trigger] plans@[i].category),
                    plans@[i].source.deep_view(),
                    r.1@[i],
                ),
    {
        let mut stats = SortStats::new();
        proof {
            assert(forall|c: Category| #![trigger cat_index_spec(c)] stats.count_of(c) == 0);
        }
        stats.set_total(plans.len());
        let mut dirs = initial_dir_names(root);
        let mut results: Vec<MoveResult> = Vec::new();
        let mut i: usize = 0;
        proof {
            assert forall|c: Category| #![trigger cat_index_spec(c)]
                dirs@[cat_index_spec(c)].deep_view() == names_at_step(
                root@,
                plans@,
                results@,
                0,
                c,
            ) by {
                assert(names_under(root@, c.folder_name_spec()) + Seq::<Seq<char>>::empty()
                    =~= names_under(root@, c.folder_name_spec()));
            }
        }
        while i < plans.len()
            invariant
                stats.wf(),
                i <= plans@.len(),
                results@.len() == i,
                stats.total_files == plans@.len(),
                stats.moved_files == i,
                stats.skipped_files == 0,
                stats.error_count == 0,
                stats.renamed_files == count_renamed(results@, i as int),
                forall|c: Category| #![trigger cat_index_spec(c)]
                    stats.count_of(c) == count_category(plans@, i as int, c),
                dirs@.len() == Category::all_spec().len(),
                forall|c: Category| #![trigger cat_index_spec(c)]
                    dirs@[cat_index_spec(c)].deep_view() == names_at_step(
                        root@,
                        plans@,
                        results@,
                        i as int,
                        c,
                    ),
                forall|j: int|
                    0 <= j < i ==> move_outcome(
                        names_at_step(root@, plans@, results@, j, #[trigger] plans@[j].category),
                        plans@[j].source.deep_view(),
                        results@[j],
                    ),
            decreases plans@.len() - i,
        {
            let ghost dirs0 = dirs@;
            let ghost results0 = results@;
            let ghost ii = i as int;
            let plan = &plans[i];
            let ghost c0 = plans@[ii].category;
            let fname: &str = if plan.source.len() > 0 {
                plan.source[plan.source.len() - 1].as_str()
            } else {
                "unknown"
            };
            proof {
                assert(fname@ == filename_of(plans@[ii].source.deep_view()));
                lemma_counts_bounded(plans@, results@, ii, c0);
                crate::config::lemma_cat_index(c0);
            }
            let ci = cat_index(plan.category);
            let mr = move_file_with_dedup(&dirs[ci], fname);
            let wr = mr.was_renamed;
            let dest_copy = mr.destination.clone();
            let ghost mdest = mr.destination@;
            results.push(mr);
            let mut d = dirs.remove(ci);
            d.push(dest_copy);
            dirs.insert(ci, d);
            stats.record_success(plan.category, wr);
            proof {
                let resultsN = results@;
                assert(resultsN[ii].destination@ == mdest);
                assert forall|j: int, c: Category|
                    0 <= j <= ii implies dests_of_category(plans@, resultsN, j, c)
                    == dests_of_category(plans@, results0, j, c) && count_renamed(resultsN, j)
                    == count_renamed(results0, j) by {
                    lemma_results_prefix(plans@, resultsN, results0, j, c);
                }
                assert(dirs@ =~= dirs0.update(cat_index_spec(c0), dirs@[cat_index_spec(c0)]));
                let dnew = dirs@[cat_index_spec(c0)];
                assert(dnew@ == dirs0[cat_index_spec(c0)]@.push(resultsN[ii].destination));
                assert(dnew.deep_view() =~= dirs0[cat_index_spec(c0)].deep_view().push(mdest));
                assert(names_at_step(root@, plans@, resultsN, ii + 1, c0) =~= names_at_step(
                    root@,
                    plans@,
                    results0,
                    ii,
                    c0,
                ).push(mdest));
                assert forall|c: Category| #![trigger cat_index_spec(c)]
                    dirs@[cat_index_spec(c)].deep_view() == names_at_step(
                    root@,
                    plans@,
                    resultsN,
                    ii + 1,
                    c,
                ) by {
                    crate::config::lemma_cat_index(c);
                    if c == c0 {
                    } else {
                        assert(cat_index_spec(c) != cat_index_spec(c0));
                        assert(dests_of_category(plans@, resultsN, ii + 1, c)
                            =~= dests_of_category(plans@, resultsN, ii, c));
                    }
                }
                assert forall|j: int|
                    0 <= j <= ii implies move_outcome(
                    names_at_step(root@, plans@, resultsN, j, #[trigger] plans@[j].category),
                    plans@[j].source.deep_view(),
                    resultsN[j],
                ) by {
                    if j == ii {
                        assert(names_at_step(root@, plans@, resultsN, ii, c0) == names_at_step(
                            root@,
                            plans@,
                            results0,
                            ii,
                            c0,
                        ));
                        assert(names_at_step(root@, plans@, results0, ii, c0) == dirs0[
                            cat_index_spec(c0)].deep_view());
                    }
                }
            }
            i = i + 1;
        }
        (stats, results)
    }
}

/// The files a traversal collects from the directory whose entries are
/// `entries` and whose path (relative to the target directory) is `prefix`,
/// starting at child index `i`, in entry order.
///
/// Symbolic links are skipped; a file directly inside a top-level category
/// folder is skipped; a directory named like a category folder is never
/// descended into; any other directory is descended only in recursive mode.
pub open spec fn collect_from(
    entries: Vec<DirEntry>,
    i: int,
    prefix: Seq<Seq<char>>,
    recursive: bool,
) -> Seq<Seq<Seq<char>>>
    decreases entries, entries.len() - i,
    via collect_from_decreases
{
    if i < 0 || i >= entries.len() {
        Seq::empty()
    } else {
        let e = entries[i];
        let here = match e.node {
            FsNode::File => {
                if Sorter::is_category_folder_spec(prefix.push(e.name@)) {
                    Seq::empty()
                } else {
                    seq![prefix.push(e.name@)]
                }
            },
            FsNode::Symlink => Seq::empty(),
            FsNode::Dir(children) => {
                if recursive && !is_category_name(e.name@) {
                    collect_from(children, 0, prefix.push(e.name@), recursive)
                } else {
                    Seq::empty()
                }
            },
        };
        here + collect_from(entries, i + 1, prefix, recursive)
    }
}

#[via_fn]
proof fn collect_from_decreases(
    entries: Vec<DirEntry>,
    i: int,
    prefix: Seq<Seq<char>>,
    recursive: bool,
) {
    if 0 <= i < entries.len() {
        vstd::std_specs::vec::axiom_vec_index_decreases(entries, i);
        let e = entries[i];
        assert(decreases_to!(entries => e));
        match e.node {
            FsNode::Dir(children) => {
                assert(decreases_to!(e => e.node));
                assert(decreases_to!(e.node => children));
                assert(decreases_to!(entries => children));
            },
            _ => {},
        }
    }
}

/// Clones a path and appends one more component.
fn push_path(prefix: &Vec<String>, name: &String) -> (r: Vec<String>)
    ensures
        r.deep_view() == prefix.deep_view().push(name@),
{
    let mut r: Vec<String> = Vec::new();
    let mut i: usize = 0;
    while i < prefix.len()
        invariant
            i <= prefix@.len(),
            r@.len() == i,
            forall|k: int| 0 <= k < i ==> r@[k]@ == prefix@[k]@,
        decreases prefix@.len() - i,
    {
        r.push(prefix[i].clone());
        i = i + 1;
    }
    r.push(name.clone());
    proof {
        assert(r.deep_view() =~= prefix.deep_view().push(name@));
    }
    r
}

/// Walks one directory of the snapshot, appending what it collects to `out`.
fn collect_into(
    entries: &Vec<DirEntry>,
    prefix: &Vec<String>,
    recursive: bool,
    out: &mut Vec<Vec<String>>,
)
    ensures
        final(out).deep_view() == old(out).deep_view() + collect_from(
            *entries,
            0,
            prefix.deep_view(),
            recursive,
        ),
    decreases *entries,
{
    let ghost out0 = old(out).deep_view();
    let ghost pv = prefix.deep_view();
    let mut i: usize = 0;
    while i < entries.len()
        invariant
            i <= entries@.len(),
            pv == prefix.deep_view(),
            out.deep_view() + collect_from(*entries, i as int, pv, recursive) == out0
                + collect_from(*entries, 0, pv, recursive),
        decreases entries@.len() - i,
    {
        let ghost pre = out.deep_view();
        let ghost e = entries@[i as int];
        let ghost here = match e.node {
            FsNode::File => {
                if Sorter::is_category_folder_spec(pv.push(e.name@)) {
                    Seq::empty()
                } else {
                    seq![pv.push(e.name@)]
                }
            },
            FsNode::Symlink => Seq::<Seq<Seq<char>>>::empty(),
            FsNode::Dir(children) => {
                if recursive && !is_category_name(e.name@) {
                    collect_from(children, 0, pv.push(e.name@), recursive)
                } else {
                    Seq::empty()
                }
            },
        };
        match &entries[i].node {
            FsNode::File => {
                let p = push_path(prefix, &entries[i].name);
                let skip = if p.len() == 2 {
                    proof {
                        assert(p.deep_view()[0] == pv.push(e.name@)[0]);
                    }
                    is_category_folder_name(p[0].as_str())
                } else {
                    false
                };
                proof {
                    assert(skip == Sorter::is_category_folder_spec(pv.push(e.name@)));
                }
                if !skip {
                    out.push(p);
                    proof {
                        assert(out.deep_view() =~= pre + here);
                    }
                }
            },
            FsNode::Symlink => {},
            FsNode::Dir(children) => {
                if recursive && !is_category_folder_name(entries[i].name.as_str()) {
                    let p2 = push_path(prefix, &entries[i].name);
                    proof {
                        vstd::std_specs::vec::axiom_vec_index_decreases(*entries, i as int);
                        assert(decreases_to!(*entries => e));
                        assert(decreases_to!(e => e.node));
                        assert(decreases_to!(e.node => *children));
                        assert(decreases_to!(*entries => *children));
                    }
                    collect_into(children, &p2, recursive, out);
                }
            },
        }
        proof {
            assert(out.deep_view() =~= pre + here);
            assert(collect_from(*entries, i as int, pv, recursive) == here + collect_from(
                *entries,
                i + 1,
                pv,
                recursive,
            ));
            assert(pre + here + collect_from(*entries, i + 1, pv, recursive) =~= pre + (here
                + collect_from(*entries, i + 1, pv, recursive)));
        }
        i = i + 1;
    }
    proof {
        assert(collect_from(*entries, entries@.len() as int, pv, recursive) =~= Seq::empty());
        assert(out.deep_view() + Seq::<Seq<Seq<char>>>::empty() =~= out.deep_view());
    }
}

impl Sorter {
    /// One full run over a snapshot of the (already validated) target
    /// directory: collect the files, plan their relocations, then simulate
    /// or execute according to the configuration.  An empty collection
    /// yields all-zero statistics and no planned moves.
    pub fn run(&self, root: &Vec<DirEntry>) -> (r: (SortStats, Vec<MoveResult>))
        ensures
            r.0.wf(),
            r.0.total_files == collect_from(*root, 0, Seq::empty(), self.config.recursive).len(),
            r.0.moved_files == r.0.total_files,
            r.0.skipped_files == 0,
            r.0.error_count == 0,
            r.0.renamed_files <= r.0.total_files,
            r.1@.len() == r.0.total_files,
            collect_from(*root, 0, Seq::empty(), self.config.recursive).len() == 0
                ==> r.0.is_zeroed(),
    {
        let files = self.collect_files(root);
        proof {
            assert(files.deep_view().len() == files@.len());
        }
        if files.len() == 0 {
            let stats = SortStats::new();
            let results: Vec<MoveResult> = Vec::new();
            return (stats, results);
        }
        let plans = self.create_plans(root, &files);
        let r = if self.config.dry_run {
            self.execute_dry_run(root, &plans)
        } else {
            self.execute_move(root, &plans)
        };
        proof {
            lemma_counts_bounded(plans@, r.1@, plans@.len() as int, Category::Others);
        }
        r
    }
}

/// Membership in a concatenation of sequences.
proof fn lemma_contains_concat<T>(a: Seq<T>, b: Seq<T>, x: T)
    ensures
        (a + b).contains(x) <==> a.contains(x) || b.contains(x),
{
    if (a + b).contains(x) {
        let k = choose|k: int| 0 <= k < (a + b).len() && (a + b)[k] == x;
        if k < a.len() {
            assert(a[k] == x);
        } else {
            assert(b[k - a.len()] == x);
        }
    }
    if a.contains(x) {
        let k = choose|k: int| 0 <= k < a.len() && a[k] == x;
        assert((a + b)[k] == x);
    }
    if b.contains(x) {
        let k = choose|k: int| 0 <= k < b.len() && b[k] == x;
        assert((a + b)[a.len() + k] == x);
    }
}

/// Every path a traversal yields strictly extends the prefix it started
/// from; without recursion it adds exactly one component; and a path that
/// descends further first enters a directory that is no category folder.
pub proof fn lemma_collect_shape(
    entries: Vec<DirEntry>,
    i: int,
    prefix: Seq<Seq<char>>,
    recursive: bool,
)
    ensures
        forall|p: Seq<Seq<char>>| #[trigger]
            collect_from(entries, i, prefix, recursive).contains(p) ==> {
                &&& p.len() > prefix.len()
                &&& p.take(prefix.len() as int) == prefix
                &&& (!recursive ==> p.len() == prefix.len() + 1)
                &&& (p.len() > prefix.len() + 1 ==> !is_category_name(p[prefix.len() as int]))
            },
    decreases entries, entries.len() - i,
{
    if i < 0 || i >= entries.len() {
    } else {
        let e = entries[i];
        let rest = collect_from(entries, i + 1, prefix, recursive);
        lemma_collect_shape(entries, i + 1, prefix, recursive);
        let here: Seq<Seq<Seq<char>>> = match e.node {
            FsNode::File => {
                if Sorter::is_category_folder_spec(prefix.push(e.name@)) {
                    Seq::empty()
                } else {
                    seq![prefix.push(e.name@)]
                }
            },
            FsNode::Symlink => Seq::empty(),
            FsNode::Dir(children) => {
                if recursive && !is_category_name(e.name@) {
                    collect_from(children, 0, prefix.push(e.name@), recursive)
                } else {
                    Seq::empty()
                }
            },
        };
        match e.node {
            FsNode::Dir(children) => {
                if recursive && !is_category_name(e.name@) {
                    vstd::std_specs::vec::axiom_vec_index_decreases(entries, i);
                    assert(decreases_to!(entries => e));
                    assert(decreases_to!(e => e.node));
                    assert(decreases_to!(e.node => children));
                    assert(decreases_to!(entries => children));
                    lemma_collect_shape(children, 0, prefix.push(e.name@), recursive);
                }
            },
            _ => {},
        }
        assert forall|p: Seq<Seq<char>>| #[trigger]
            collect_from(entries, i, prefix, recursive).contains(p) implies {
            &&& p.len() > prefix.len()
            &&& p.take(prefix.len() as int) == prefix
            &&& (!recursive ==> p.len() == prefix.len() + 1)
            &&& (p.len() > prefix.len() + 1 ==> !is_category_name(p[prefix.len() as int]))
        } by {
            lemma_contains_concat(here, rest, p);
            if here.contains(p) {
                match e.node {
                    FsNode::File => {
                        assert(p == prefix.push(e.name@));
                        assert(p.take(prefix.len() as int) =~= prefix);
                    },
                    FsNode::Symlink => {},
                    FsNode::Dir(children) => {
                        let sub = prefix.push(e.name@);
                        assert(p.len() > sub.len());
                        assert(p.take(sub.len() as int) == sub);
                        assert(p.take(prefix.len() as int) =~= p.take(sub.len() as int).take(
                            prefix.len() as int,
                        ));
                        assert(sub.take(prefix.len() as int) =~= prefix);
                        assert(p[prefix.len() as int] == p.take(sub.len() as int)[prefix.len()
                            as int]);
                        assert(p[prefix.len() as int] == e.name@);
                    },
                }
            }
        }
    }
}

/// A non-recursive traversal of the target directory yields exactly its
/// immediate regular-file children, each as a one-component path.
pub proof fn lemma_nonrecursive_exact(entries: Vec<DirEntry>, i: int, p: Seq<Seq<char>>)
    requires
        0 <= i <= entries.len(),
    ensures
        collect_from(entries, i, Seq::empty(), false).contains(p) <==> exists|k: int|
            i <= k < entries.len() && (#[trigger] entries[k]).node is File && p == seq![
                entries[k].name@,
            ],
    decreases entries.len() - i,
{
    if i == entries.len() {
    } else {
        let e = entries[i];
        let rest = collect_from(entries, i + 1, Seq::empty(), false);
        let here: Seq<Seq<Seq<char>>> = match e.node {
            FsNode::File => seq![Seq::empty().push(e.name@)],
            _ => Seq::empty(),
        };
        assert(here + rest == collect_from(entries, i, Seq::empty(), false));
        lemma_nonrecursive_exact(entries, i + 1, p);
        lemma_contains_concat(here, rest, p);
        if here.contains(p) {
            assert(p =~= seq![e.name@]);
        }
        if exists|k: int|
            i <= k < entries.len() && (#[trigger] entries[k]).node is File && p == seq![
                entries[k].name@,
            ] {
            let k = choose|k: int|
                i <= k < entries.len() && (#[trigger] entries[k]).node is File && p == seq![
                    entries[k].name@,
                ];
            if k == i {
                assert(Seq::empty().push(e.name@) =~= seq![e.name@]);
                assert(here =~= seq![Seq::empty().push(e.name@)]);
                assert(here[0] == p);
                assert(here.contains(p));
            }
        }
    }
}

/// True when the traversal rules admit the path suffix `p`, looked up from
/// child index `i` of `entries`: its file entry is reached by descending
/// only through directory entries, none of them a category folder, and
/// descending at all only in recursive mode.  Symbolic links never match.
pub open spec fn eligible_from(
    entries: Vec<DirEntry>,
    i: int,
    p: Seq<Seq<char>>,
    recursive: bool,
) -> bool
    decreases p.len(),
{
    if p.len() == 0 {
        false
    } else if p.len() == 1 {
        exists|k: int|
            i <= k < entries.len() && (#[trigger] entries[k]).node is File && entries[k].name@
                == p[0]
    } else {
        &&& recursive
        &&& !is_category_name(p[0])
        &&& exists|k: int|
            {
                &&& i <= k < entries.len()
                &&& (#[trigger] entries[k]).name@ == p[0]
                &&& entries[k].node matches FsNode::Dir(children) && eligible_from(
                    children,
                    0,
                    p.drop_first(),
                    recursive,
                )
            }
    }
}

/// True when the traversal rules admit `p` as a file of the tree whose root
/// entries are `entries`.
pub open spec fn eligible(entries: Vec<DirEntry>, p: Seq<Seq<char>>, recursive: bool) -> bool {
    eligible_from(entries, 0, p, recursive)
}

/// A witness for `eligible_from` at one index carries over to any earlier
/// start index.
proof fn lemma_eligible_widen(
    entries: Vec<DirEntry>,
    i: int,
    j: int,
    p: Seq<Seq<char>>,
    recursive: bool,
)
    requires
        i <= j,
        eligible_from(entries, j, p, recursive),
    ensures
        eligible_from(entries, i, p, recursive),
{
    if p.len() == 1 {
        let k = choose|k: int|
            j <= k < entries.len() && (#[trigger] entries[k]).node is File && entries[k].name@
                == p[0];
        assert(i <= k < entries.len() && entries[k].node is File && entries[k].name@ == p[0]);
    } else if p.len() >= 2 {
        let k = choose|k: int|
            {
                &&& j <= k < entries.len()
                &&& (#[trigger] entries[k]).name@ == p[0]
                &&& entries[k].node matches FsNode::Dir(children) && eligible_from(
                    children,
                    0,
                    p.drop_first(),
                    recursive,
                )
            };
        assert(i <= k < entries.len() && entries[k].name@ == p[0] && (entries[k].node matches
            FsNode::Dir(children) && eligible_from(children, 0, p.drop_first(), recursive)));
    }
}

/// Membership in a traversal's output, characterized entry by entry: a path
/// is collected from child index `i` on exactly when it extends the prefix
/// and its suffix is eligible under the traversal rules.
proof fn lemma_collect_membership(
    entries: Vec<DirEntry>,
    i: int,
    prefix: Seq<Seq<char>>,
    recursive: bool,
    p: Seq<Seq<char>>,
)
    requires
        0 <= i,
        !(prefix.len() == 1 && is_category_name(prefix[0])),
    ensures
        collect_from(entries, i, prefix, recursive).contains(p) <==> {
            &&& p.len() > prefix.len()
            &&& p.take(prefix.len() as int) == prefix
            &&& eligible_from(entries, i, p.skip(prefix.len() as int), recursive)
        },
    decreases entries, entries.len() - i,
{
    let pl = prefix.len() as int;
    let s = p.skip(pl);
    if i >= entries.len() {
        assert(!eligible_from(entries, i, s, recursive));
    } else {
        let e = entries[i];
        let rest = collect_from(entries, i + 1, prefix, recursive);
        let here: Seq<Seq<Seq<char>>> = match e.node {
            FsNode::File => {
                if Sorter::is_category_folder_spec(prefix.push(e.name@)) {
                    Seq::empty()
                } else {
                    seq![prefix.push(e.name@)]
                }
            },
            FsNode::Symlink => Seq::empty(),
            FsNode::Dir(children) => {
                if recursive && !is_category_name(e.name@) {
                    collect_from(children, 0, prefix.push(e.name@), recursive)
                } else {
                    Seq::empty()
                }
            },
        };
        lemma_collect_membership(entries, i + 1, prefix, recursive, p);
        lemma_contains_concat(here, rest, p);
        match e.node {
            FsNode::Dir(children) => {
                if recursive && !is_category_name(e.name@) {
                    vstd::std_specs::vec::axiom_vec_index_decreases(entries, i);
                    assert(decreases_to!(entries => e));
                    assert(decreases_to!(e => e.node));
                    assert(decreases_to!(e.node => children));
                    assert(decreases_to!(entries => children));
                    lemma_collect_membership(children, 0, prefix.push(e.name@), recursive, p);
                }
            },
            _ => {},
        }

        // Seq bridges used by both directions.
        if p.len() > pl {
            assert(s.len() == p.len() - pl);
            assert(s[0] == p[pl]);
        }

        // Collected here or further on implies the characterization.
        if collect_from(entries, i, prefix, recursive).contains(p) {
            if here.contains(p) {
                match e.node {
                    FsNode::File => {
                        assert(p == prefix.push(e.name@));
                        assert(p.take(pl) =~= prefix);
                        assert(s =~= seq![e.name@]);
                        assert(i <= i < entries.len() && entries[i].node is File
                            && entries[i].name@ == s[0]);
                        assert(eligible_from(entries, i, s, recursive));
                    },
                    FsNode::Symlink => {
                        assert(false);
                    },
                    FsNode::Dir(children) => {
                        assert(recursive && !is_category_name(e.name@));
                        assert(p.len() > pl + 1);
                        assert(p.take(pl + 1) == prefix.push(e.name@));
                        assert(p.take(pl) =~= p.take(pl + 1).take(pl));
                        assert(prefix.push(e.name@).take(pl) =~= prefix);
                        assert(p[pl] == p.take(pl + 1)[pl]);
                        assert(p[pl] == e.name@);
                        assert(s.drop_first() =~= p.skip(pl + 1));
                        assert(i <= i < entries.len() && entries[i].name@ == s[0]
                            && (entries[i].node matches FsNode::Dir(ch) && eligible_from(
                            ch,
                            0,
                            s.drop_first(),
                            recursive,
                        )));
                        assert(eligible_from(entries, i, s, recursive));
                    },
                }
            } else {
                assert(rest.contains(p));
                lemma_eligible_widen(entries, i, i + 1, s, recursive);
            }
        }

        // The characterization implies membership.
        if p.len() > pl && p.take(pl) == prefix && eligible_from(entries, i, s, recursive) {
            if s.len() == 1 {
                let k = choose|k: int|
                    i <= k < entries.len() && (#[trigger] entries[k]).node is File
                        && entries[k].name@ == s[0];
                if k == i {
                    assert(p =~= p.take(pl) + p.skip(pl));
                    assert(s =~= seq![e.name@]);
                    assert(p =~= prefix.push(e.name@));
                    assert(!Sorter::is_category_folder_spec(prefix.push(e.name@)));
                    assert(here[0] == p);
                    assert(here.contains(p));
                } else {
                    assert(eligible_from(entries, i + 1, s, recursive));
                    assert(rest.contains(p));
                }
            } else {
                assert(recursive && !is_category_name(s[0]));
                let k = choose|k: int|
                    {
                        &&& i <= k < entries.len()
                        &&& (#[trigger] entries[k]).name@ == s[0]
                        &&& entries[k].node matches FsNode::Dir(children) && eligible_from(
                            children,
                            0,
                            s.drop_first(),
                            recursive,
                        )
                    };
                if k == i {
                    match e.node {
                        FsNode::Dir(children) => {
                            assert(p.len() > pl + 1);
                            assert(p.take(pl + 1) =~= prefix.push(e.name@));
                            assert(p.skip(pl + 1) =~= s.drop_first());
                            assert(eligible_from(children, 0, p.skip(pl + 1), recursive));
                            assert(here.contains(p));
                        },
                        _ => {
                            assert(false);
                        },
                    }
                } else {
                    assert(eligible_from(entries, i + 1, s, recursive));
                    assert(rest.contains(p));
                }
            }
        }
    }
}

/// A traversal started at the target directory's root collects exactly the
/// eligible paths: in non-recursive mode the immediate regular-file
/// children, and in recursive mode every regular file reached by descending
/// only through non-category directories -- never through a symbolic link,
/// and never into a category folder.
pub proof fn lemma_collect_exact(entries: Vec<DirEntry>, recursive: bool, p: Seq<Seq<char>>)
    ensures
        collect_from(entries, 0, Seq::empty(), recursive).contains(p) <==> eligible(
            entries,
            p,
            recursive,
        ),
{
    lemma_collect_membership(entries, 0, Seq::empty(), recursive, p);
    assert(p.take(0) =~= Seq::<Seq<char>>::empty());
    assert(p.skip(0) =~= p);
}

/// Sorted output is never re-collected: a traversal started at the target
/// directory's root yields no path that lies inside a top-level category
/// folder.  A second run therefore never touches what a first run sorted.
pub proof fn lemma_sorted_output_not_recollected(entries: Vec<DirEntry>, recursive: bool)
    ensures
        forall|p: Seq<Seq<char>>| #[trigger]
            collect_from(entries, 0, Seq::empty(), recursive).contains(p) ==> !(p.len() >= 2
                && is_category_name(p[0])),
{
    lemma_collect_shape(entries, 0, Seq::empty(), recursive);
}

/// A target directory without regular-file children yields an empty
/// non-recursive collection.
pub proof fn lemma_nonrecursive_no_files_collects_nothing(entries: Vec<DirEntry>)
    requires
        forall|k: int| 0 <= k < entries.len() ==> !((#[trigger] entries[k]).node is File),
    ensures
        collect_from(entries, 0, Seq::empty(), false).len() == 0,
{
    let s = collect_from(entries, 0, Seq::empty(), false);
    if s.len() > 0 {
        assert(s.contains(s[0]));
        lemma_nonrecursive_exact(entries, 0, s[0]);
    }
}

} // verus!
