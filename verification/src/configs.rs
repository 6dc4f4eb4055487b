//! The configurations of a run.
//!
//! Every federation has one configuration file, and every check of a meet
//! depends on the configuration of its federation. So the configurations
//! are read first, one file after the other. A file that cannot be read ends
//! the run at once, and counts as one error. Errors in the files end the run
//! when all have been read. Warnings end nothing.

use vstd::prelude::*;
use vstd::hash_map::StringHashMap;
use crate::report::{errors_in, warnings_in, Report};

verus! {

/// The configurations of a run, each under the name of its federation.
pub type ConfigMap<C> = StringHashMap<C>;

/// What came of the check of one configuration file.
pub enum ConfigCheck<C> {
    /// The file was read. The configuration is there if sense could be made
    /// of the file.
    Checked { federation: String, report: Report, config: Option<C> },
    /// The file could not be read.
    Failed,
}

/// How far the loading of the configurations has come, as contracts see it.
pub struct Loading<C> {
    /// The errors so far. A file that could not be read counts as one.
    pub errors: nat,
    /// The warnings so far.
    pub warnings: nat,
    /// The configurations so far, each under the name of its federation.
    pub configs: Map<Seq<char>, C>,
    /// Whether a file could not be read. Nothing is taken in after that.
    pub failed: bool,
}

impl<C> Loading<C> {
    /// Before the first file.
    pub open spec fn start() -> Loading<C> {
        Loading { errors: 0, warnings: 0, configs: Map::empty(), failed: false }
    }

    /// After one more file. The findings of its report are counted, and its
    /// configuration, if it has one, is filed under its federation, in the
    /// place of an earlier one of that federation.
    pub open spec fn took(self, check: ConfigCheck<C>) -> Loading<C> {
        if self.failed {
            self
        } else {
            match check {
                ConfigCheck::Checked { federation, report, config } => Loading {
                    errors: self.errors + errors_in(report.messages@),
                    warnings: self.warnings + warnings_in(report.messages@),
                    configs: match config {
                        Some(c) => self.configs.insert(federation@, c),
                        None => self.configs,
                    },
                    failed: false,
                },
                ConfigCheck::Failed => Loading {
                    errors: self.errors + 1,
                    warnings: self.warnings,
                    configs: self.configs,
                    failed: true,
                },
            }
        }
    }

    /// Both counts can be held in a `usize`.
    pub open spec fn fits(self) -> bool {
        self.errors <= usize::MAX && self.warnings <= usize::MAX
    }

    /// What the loading comes to: the configurations if there was no error,
    /// and the numbers of errors and of warnings if there was one.
    pub open spec fn result(self) -> Result<Map<Seq<char>, C>, (nat, nat)> {
        if self.errors > 0 {
            Err((self.errors, self.warnings))
        } else {
            Ok(self.configs)
        }
    }
}

/// The loading after the files whose checks are given, in their order.
pub open spec fn loading<C>(checks: Seq<ConfigCheck<C>>) -> Loading<C>
    decreases checks.len(),
{
    if checks.len() == 0 {
        Loading::start()
    } else {
        loading(checks.drop_last()).took(checks.last())
    }
}

/// Every file was read.
pub open spec fn all_checked<C>(checks: Seq<ConfigCheck<C>>) -> bool {
    forall|i: int| 0 <= i < checks.len() ==> #[trigger] checks[i] is Checked
}

/// No two files that were read belong to one federation.
pub open spec fn one_each<C>(checks: Seq<ConfigCheck<C>>) -> bool {
    forall|i: int, j: int|
        0 <= i < checks.len() && 0 <= j < checks.len() && i != j && checks[i] is Checked
            && checks[j] is Checked ==> (#[trigger] checks[i])->federation@ != (
        #[trigger] checks[j])->federation@
}

/// The errors in the reports of the files that were read.
pub open spec fn errors_of<C>(checks: Seq<ConfigCheck<C>>) -> nat
    decreases checks.len(),
{
    if checks.len() == 0 {
        0
    } else {
        errors_of(checks.drop_last()) + (match checks.last() {
            ConfigCheck::Checked { federation, report, config } => errors_in(report.messages@),
            ConfigCheck::Failed => 0,
        })
    }
}

/// The warnings in the reports of the files that were read.
pub open spec fn warnings_of<C>(checks: Seq<ConfigCheck<C>>) -> nat
    decreases checks.len(),
{
    if checks.len() == 0 {
        0
    } else {
        warnings_of(checks.drop_last()) + (match checks.last() {
            ConfigCheck::Checked { federation, report, config } => warnings_in(report.messages@),
            ConfigCheck::Failed => 0,
        })
    }
}

/// Collects the configurations of a run, one for each federation, and the
/// findings about them.
#[verifier::reject_recursive_types(C)]
pub struct ConfigLoader<C> {
    pub configs: ConfigMap<C>,
    pub errors: usize,
    pub warnings: usize,
}

impl<C> View for ConfigLoader<C> {
    type V = Loading<C>;

    open spec fn view(&self) -> Loading<C> {
        Loading {
            errors: self.errors as nat,
            warnings: self.warnings as nat,
            configs: self.configs@,
            failed: false,
        }
    }
}

impl<C> ConfigLoader<C> {
    /// A loader that has seen no file yet.
    pub fn new() -> (r: ConfigLoader<C>)
        ensures
            r@ == Loading::<C>::start(),
    {
        ConfigLoader { configs: StringHashMap::new(), errors: 0, warnings: 0 }
    }

    /// Takes in the check of one configuration file that was read. The
    /// findings are counted, and the configuration, if the check yielded
    /// one, is filed under its federation. Returns whether the report is to
    /// be shown: it is if it holds a finding. Returns `None`, and takes
    /// nothing in, if a count can no longer be held.
    pub fn checked(&mut self, federation: String, report: &Report, config: Option<C>) -> (r:
        Option<bool>)
        ensures
            match r {
                Some(show) => {
                    &&& show == (report.messages@.len() > 0)
                    &&& final(self)@ == old(self)@.took(
                        ConfigCheck::Checked { federation, report: *report, config },
                    )
                },
                None => {
                    &&& *final(self) == *old(self)
                    &&& !old(self)@.took(
                        ConfigCheck::Checked { federation, report: *report, config },
                    ).fits()
                },
            },
    {
        let (errors, warnings) = report.count_messages();
        if self.errors > usize::MAX - errors || self.warnings > usize::MAX - warnings {
            return None;
        }
        self.errors += errors;
        self.warnings += warnings;
        if let Some(c) = config {
            self.configs.insert(federation, c);
        }
        Some(errors > 0 || warnings > 0)
    }

    /// The counts with which the run ends when a configuration file could
    /// not be read: the failure counts as one more error. Returns `None` if
    /// that count cannot be held.
    pub fn failed(&self) -> (r: Option<(usize, usize)>)
        ensures
            match r {
                Some(counts) => self@.took(ConfigCheck::Failed).result() == Err::<
                    Map<Seq<char>, C>,
                    (nat, nat),
                >((counts.0 as nat, counts.1 as nat)),
                None => !self@.took(ConfigCheck::Failed).fits(),
            },
    {
        if self.errors == usize::MAX {
            None
        } else {
            Some((self.errors + 1, self.warnings))
        }
    }

    /// Ends the loading. Without errors the configurations are handed out.
    /// With errors none is, and the counts are returned instead.
    pub fn finish(self) -> (r: Result<ConfigMap<C>, (usize, usize)>)
        ensures
            match r {
                Ok(configs) => self@.result() == Ok::<Map<Seq<char>, C>, (nat, nat)>(configs@),
                Err(counts) => self@.result() == Err::<Map<Seq<char>, C>, (nat, nat)>(
                    (counts.0 as nat, counts.1 as nat),
                ),
            },
    {
        if self.errors > 0 {
            Err((self.errors, self.warnings))
        } else {
            Ok(self.configs)
        }
    }
}

/// The counts of a loading never fall.
pub proof fn lemma_loading_grows<C>(checks: Seq<ConfigCheck<C>>, n: int)
    requires
        0 <= n <= checks.len(),
    ensures
        loading(checks).errors >= loading(checks.take(n)).errors,
        loading(checks).warnings >= loading(checks.take(n)).warnings,
        loading(checks.take(n)).failed ==> loading(checks) == loading(checks.take(n)),
    decreases checks.len() - n,
{
    if n == checks.len() {
        assert(checks.take(n) =~= checks);
    } else {
        assert(checks.take(n + 1).drop_last() =~= checks.take(n));
        lemma_loading_grows(checks, n + 1);
    }
}

/// Loads the configurations from the checks of the configuration files,
/// taken in their order up to the first file that could not be read.
/// Returns `None` if a count cannot be held.
pub fn load_configurations<C>(checks: Vec<ConfigCheck<C>>) -> (r: Option<
    Result<ConfigMap<C>, (usize, usize)>,
>)
    ensures
        match r {
            Some(Ok(configs)) => loading(checks@).result() == Ok::<
                Map<Seq<char>, C>,
                (nat, nat),
            >(configs@),
            Some(Err(counts)) => loading(checks@).result() == Err::<
                Map<Seq<char>, C>,
                (nat, nat),
            >((counts.0 as nat, counts.1 as nat)),
            None => !loading(checks@).fits(),
        },
{
    let mut loader: ConfigLoader<C> = ConfigLoader::new();
    for check in it: checks
        invariant
            it.seq() == checks@,
            loader@ == loading(checks@.take(it.index() as int)),
    {
        proof {
            let n = it.index() as int;
            assert(checks@.take(n + 1).drop_last() =~= checks@.take(n));
            assert(checks@.take(n + 1).last() == check);
            lemma_loading_grows(checks@, n + 1);
        }
        match check {
            ConfigCheck::Checked { federation, report, config } => {
                if loader.checked(federation, &report, config).is_none() {
                    return None;
                }
            },
            ConfigCheck::Failed => {
                return match loader.failed() {
                    Some(counts) => Some(Err(counts)),
                    None => None,
                };
            },
        }
    }
    proof {
        assert(checks@.take(checks@.len() as int) =~= checks@);
    }
    Some(loader.finish())
}

/// Where every file was read, the loading counts the findings of all
/// reports. It ends in the configurations if the reports hold no error, and
/// in the two counts if they hold one: warnings alone end nothing.
pub proof fn lemma_loading_counts_all_reports<C>(checks: Seq<ConfigCheck<C>>)
    requires
        all_checked(checks),
    ensures
        !loading(checks).failed,
        loading(checks).errors == errors_of(checks),
        loading(checks).warnings == warnings_of(checks),
        loading(checks).result() == (if errors_of(checks) > 0 {
            Err::<Map<Seq<char>, C>, (nat, nat)>((errors_of(checks), warnings_of(checks)))
        } else {
            Ok::<Map<Seq<char>, C>, (nat, nat)>(loading(checks).configs)
        }),
    decreases checks.len(),
{
    if checks.len() > 0 {
        assert(all_checked(checks.drop_last())) by {
            assert forall|i: int| 0 <= i < checks.drop_last().len() implies #[trigger] checks.drop_last()[i] is Checked by {
                assert(checks[i] is Checked);
            }
        }
        lemma_loading_counts_all_reports(checks.drop_last());
        assert(checks[checks.len() - 1] is Checked);
    }
}

/// The loading ends at the first file that could not be read. That failure
/// counts as one error on top of the errors in the reports before it, and
/// no configuration is handed out, whatever comes after.
pub proof fn lemma_loading_ends_at_the_first_failure<C>(checks: Seq<ConfigCheck<C>>, k: int)
    requires
        0 <= k < checks.len(),
        checks[k] is Failed,
        all_checked(checks.take(k)),
    ensures
        loading(checks).result() == Err::<Map<Seq<char>, C>, (nat, nat)>(
            (errors_of(checks.take(k)) + 1, warnings_of(checks.take(k))),
        ),
{
    lemma_loading_counts_all_reports(checks.take(k));
    assert(checks.take(k + 1).drop_last() =~= checks.take(k));
    assert(checks.take(k + 1).last() == checks[k]);
    lemma_loading_grows(checks, k + 1);
}

/// Taking one check out of a run lessens the counts by those of its report.
pub proof fn lemma_check_removed<C>(checks: Seq<ConfigCheck<C>>, i: int)
    requires
        0 <= i < checks.len(),
    ensures
        errors_of(checks) == errors_of(checks.remove(i)) + errors_of(seq![checks[i]]),
        warnings_of(checks) == warnings_of(checks.remove(i)) + warnings_of(seq![checks[i]]),
    decreases checks.len(),
{
    let one = seq![checks[i]];
    assert(one.drop_last() =~= Seq::<ConfigCheck<C>>::empty());
    assert(errors_of(one.drop_last()) == 0);
    assert(warnings_of(one.drop_last()) == 0);
    if i == checks.len() - 1 {
        assert(checks.remove(i) =~= checks.drop_last());
    } else {
        lemma_check_removed(checks.drop_last(), i);
        assert(checks.remove(i).drop_last() =~= checks.drop_last().remove(i));
        assert(checks.remove(i).last() == checks.last());
        assert(checks.drop_last()[i] == checks[i]);
    }
}

/// The counts of the reports do not depend on the order of the files.
pub proof fn lemma_counts_ignore_order<C>(a: Seq<ConfigCheck<C>>, b: Seq<ConfigCheck<C>>)
    requires
        a.to_multiset() == b.to_multiset(),
    ensures
        errors_of(a) == errors_of(b),
        warnings_of(a) == warnings_of(b),
    decreases a.len(),
{
    broadcast use vstd::seq_lib::group_to_multiset_ensures;

    a.to_multiset_ensures();
    b.to_multiset_ensures();
    if a.len() == 0 {
        assert(b.len() == 0);
    } else {
        let last = a.last();
        assert(a.contains(last));
        assert(b.to_multiset().count(last) > 0);
        assert(b.contains(last));
        let j = choose|j: int| 0 <= j < b.len() && b[j] == last;
        assert(a.drop_last() =~= a.remove(a.len() - 1));
        assert(a.remove(a.len() - 1).to_multiset() =~= a.to_multiset().remove(last));
        assert(b.remove(j).to_multiset() =~= b.to_multiset().remove(last));
        lemma_counts_ignore_order(a.drop_last(), b.remove(j));
        lemma_check_removed(b, j);
        lemma_check_removed(a, a.len() - 1);
    }
}

/// Where every file was read and no two belong to one federation, the
/// loading holds a configuration for exactly the federations whose check
/// yielded one, and holds that one.
pub proof fn lemma_loading_files_each_configuration<C>(checks: Seq<ConfigCheck<C>>)
    requires
        all_checked(checks),
        one_each(checks),
    ensures
        forall|federation: Seq<char>|
            loading(checks).configs.contains_key(federation) ==> exists|i: int|
                0 <= i < checks.len() && (#[trigger] checks[i])->federation@ == federation
                    && checks[i]->config is Some,
        forall|i: int|
            0 <= i < checks.len() && (#[trigger] checks[i])->config is Some ==> loading(
                checks,
            ).configs.contains_key(checks[i]->federation@) && loading(
                checks,
            ).configs[checks[i]->federation@] == checks[i]->config.unwrap(),
    decreases checks.len(),
{
    if checks.len() > 0 {
        let earlier = checks.drop_last();
        let last = checks.last();
        assert(all_checked(earlier)) by {
            assert forall|i: int| 0 <= i < earlier.len() implies #[trigger] earlier[i] is Checked by {
                assert(checks[i] is Checked);
            }
        }
        assert(one_each(earlier)) by {
            assert forall|i: int, j: int|
                0 <= i < earlier.len() && 0 <= j < earlier.len() && i != j && earlier[i] is Checked
                    && earlier[j] is Checked implies (#[trigger] earlier[i])->federation@ != (
            #[trigger] earlier[j])->federation@ by {
                assert(checks[i]->federation@ != checks[j]->federation@);
            }
        }
        lemma_loading_files_each_configuration(earlier);
        lemma_loading_counts_all_reports(earlier);
        assert(checks[checks.len() - 1] is Checked);
        assert forall|federation: Seq<char>|
            loading(checks).configs.contains_key(federation) implies exists|i: int|
            0 <= i < checks.len() && (#[trigger] checks[i])->federation@ == federation
                && checks[i]->config is Some by {
            if loading(earlier).configs.contains_key(federation) {
                let i = choose|i: int|
                    0 <= i < earlier.len() && (#[trigger] earlier[i])->federation@ == federation
                        && earlier[i]->config is Some;
                assert(checks[i]->federation@ == federation && checks[i]->config is Some);
            } else {
                assert(checks[checks.len() - 1]->federation@ == federation);
            }
        }
        assert forall|i: int|
            0 <= i < checks.len() && (#[trigger] checks[i])->config is Some implies loading(
            checks,
        ).configs.contains_key(checks[i]->federation@) && loading(
            checks,
        ).configs[checks[i]->federation@] == checks[i]->config.unwrap() by {
            if i < checks.len() - 1 {
                assert(earlier[i] == checks[i]);
                assert(earlier[i]->config is Some);
                assert(checks[i]->federation@ != checks[checks.len() - 1]->federation@);
            }
        }
    }
}

/// The loading does not depend on the order of the files, where every file
/// was read: two runs of the same checks come to the same counts, and end
/// both in configurations or both in counts. Where no two files belong to
/// one federation, they hand out the same configurations.
pub proof fn lemma_loading_ignores_order<C>(a: Seq<ConfigCheck<C>>, b: Seq<ConfigCheck<C>>)
    requires
        all_checked(a),
        all_checked(b),
        a.to_multiset() == b.to_multiset(),
    ensures
        loading(a).errors == loading(b).errors,
        loading(a).warnings == loading(b).warnings,
        loading(a).result() is Ok <==> loading(b).result() is Ok,
        one_each(a) && one_each(b) ==> loading(a).result() == loading(b).result(),
{
    broadcast use vstd::seq_lib::group_to_multiset_ensures;

    lemma_loading_counts_all_reports(a);
    lemma_loading_counts_all_reports(b);
    lemma_counts_ignore_order(a, b);
    if one_each(a) && one_each(b) {
        lemma_loading_files_each_configuration(a);
        lemma_loading_files_each_configuration(b);
        a.to_multiset_ensures();
        b.to_multiset_ensures();
        let left = loading(a).configs;
        let right = loading(b).configs;
        assert forall|federation: Seq<char>| left.contains_key(federation) implies right.contains_key(
            federation,
        ) && right[federation] == left[federation] by {
            let i = choose|i: int|
                0 <= i < a.len() && (#[trigger] a[i])->federation@ == federation
                    && a[i]->config is Some;
            assert(a.contains(a[i]));
            assert(b.to_multiset().count(a[i]) > 0);
            assert(b.contains(a[i]));
            let j = choose|j: int| 0 <= j < b.len() && b[j] == a[i];
            assert(b[j]->config is Some);
        }
        assert forall|federation: Seq<char>| right.contains_key(federation) implies left.contains_key(
            federation,
        ) by {
            let j = choose|j: int|
                0 <= j < b.len() && (#[trigger] b[j])->federation@ == federation
                    && b[j]->config is Some;
            assert(b.contains(b[j]));
            assert(a.to_multiset().count(b[j]) > 0);
            assert(a.contains(b[j]));
            let i = choose|i: int| 0 <= i < a.len() && a[i] == b[j];
            assert(a[i]->config is Some);
        }
        assert(left =~= right);
    }
}

} // verus!
