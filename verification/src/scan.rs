//! The scan over all runs: run after run is added to it, and in the end it
//! gives the report.

use crate::model::{Error, Kind, Outcome, Platform, Provider, Route};
use crate::report::{aggregate, example_views, is_report, Example};
use crate::run::{
    examples_of, is_flagged, kept, lemma_percy_prevails, lemma_pixeleagle_first,
    lemma_pixeleagle_yields,
    lemma_registry_after_listing, lemma_registry_after_shots, lemma_results_after_listing,
    lemma_results_after_shots, lemma_screenshots_after_shots, lemma_screenshots_are_kept,
    lemma_tags_after_shots, lines_name_examples, registry_after_listing, registry_after_shots,
    rerun_role, results_after_listing, results_after_shots, run_views, screenshots_after_shots,
    shot_key, shots_name_examples, tags_after_shots, without_colors, Kept, RerunRoleView, Run,
    RunView,
};
use crate::screenshot::{screenshot_views, ScreenshotData, ScreenshotState};
use crate::table::{Key, NameSet, Table};
use crate::text::lines;
use vstd::prelude::*;

verus! {

/// One artifact of a run, read. Of `text` and `screenshots` only the one that
/// the kind calls for counts: the text of a list of examples, the screenshots
/// that a provider resolved.
#[derive(Debug)]
pub struct Artifact {
    pub platform: Platform,
    pub kind: Kind,
    pub text: String,
    pub screenshots: Vec<ScreenshotData>,
}

/// One file of the rerun of a platform, read.
#[derive(Debug)]
pub struct RerunFile {
    pub platform: Platform,
    pub name: String,
    pub text: String,
}

/// What is known while a run is read: the registry of examples and the mobile
/// tags of all runs so far, and all that the run itself holds.
pub ghost struct Ledger {
    pub registry: Map<Key, bool>,
    pub tags: Set<Seq<char>>,
    pub date: Seq<char>,
    pub commit: Seq<char>,
    pub results: Map<Key, Outcome>,
    pub screenshots: Map<Key, Kept>,
    pub logs: Map<Key, Seq<char>>,
}

/// The ledger that a registry, a set of tags and a run make.
pub open spec fn ledger(registry: Table<bool>, tags: NameSet, run: Run) -> Ledger {
    Ledger {
        registry: registry@,
        tags: tags@,
        date: run.date@,
        commit: run.commit@,
        results: run.results@,
        screenshots: run.screenshots@,
        logs: run.logs@,
    }
}

/// The ledger after an artifact. A list of examples fails as a whole on a line
/// that names no example; the screenshots of a provider fail as a whole on one
/// that names no example.
pub open spec fn after_artifact(l: Ledger, artifact: Artifact) -> Result<Ledger, Error> {
    match artifact.kind.spec_route() {
        Route::Listing(outcome) => {
            let rows = lines(artifact.text@);
            if lines_name_examples(rows) {
                Ok(
                    Ledger {
                        registry: registry_after_listing(l.registry, outcome, examples_of(rows)),
                        results: results_after_listing(
                            l.results,
                            artifact.platform.label(),
                            outcome,
                            examples_of(rows),
                        ),
                        ..l
                    },
                )
            } else {
                Err(Error::MalformedLine)
            }
        },
        Route::Comparison(provider) => {
            let shots = screenshot_views(artifact.screenshots@);
            if shots_name_examples(artifact.platform, shots) {
                Ok(
                    Ledger {
                        registry: registry_after_shots(l.registry, artifact.platform, shots),
                        tags: tags_after_shots(l.tags, artifact.platform, shots),
                        results: results_after_shots(l.results, artifact.platform, shots),
                        screenshots: screenshots_after_shots(
                            l.screenshots,
                            artifact.platform,
                            provider,
                            shots,
                        ),
                        ..l
                    },
                )
            } else {
                Err(Error::MalformedExample)
            }
        },
    }
}

/// Whether an artifact is read in the given pass. The first pass reads all
/// artifacts but those of `PixelEagle`, the second pass reads these: so
/// `Percy` has filed its screenshots before `PixelEagle` files any.
pub open spec fn in_pass(artifact: Artifact, second: bool) -> bool {
    (artifact.kind == Kind::PixelEagle) == second
}

/// The ledger after one pass over the artifacts, in their order. The first
/// artifact that fails ends the pass.
pub open spec fn after_pass(l: Ledger, artifacts: Seq<Artifact>, second: bool) -> Result<
    Ledger,
    Error,
>
    decreases artifacts.len(),
{
    if artifacts.len() == 0 {
        Ok(l)
    } else {
        match after_pass(l, artifacts.drop_last(), second) {
            Ok(before) => if in_pass(artifacts.last(), second) {
                after_artifact(before, artifacts.last())
            } else {
                Ok(before)
            },
            Err(e) => Err(e),
        }
    }
}

/// Results and logs of a run after one file of a rerun.
pub open spec fn after_rerun_file(
    results: Map<Key, Outcome>,
    logs: Map<Key, Seq<char>>,
    file: RerunFile,
) -> Result<(Map<Key, Outcome>, Map<Key, Seq<char>>), Error> {
    match rerun_role(file.name@) {
        RerunRoleView::Successes => {
            let rows = lines(file.text@);
            if lines_name_examples(rows) {
                Ok(
                    (
                        results_after_listing(
                            results,
                            file.platform.label(),
                            Outcome::NoScreenshots,
                            examples_of(rows),
                        ),
                        logs,
                    ),
                )
            } else {
                Err(Error::MalformedLine)
            }
        },
        RerunRoleView::Log(example) => Ok(
            (
                results,
                logs.insert((example, file.platform.label()), without_colors(file.text@)),
            ),
        ),
        RerunRoleView::Other => Ok((results, logs)),
    }
}

/// Results and logs of a run after the files of its reruns, in their order.
/// The first file that fails ends the reading.
pub open spec fn after_reruns(
    results: Map<Key, Outcome>,
    logs: Map<Key, Seq<char>>,
    files: Seq<RerunFile>,
) -> Result<(Map<Key, Outcome>, Map<Key, Seq<char>>), Error>
    decreases files.len(),
{
    if files.len() == 0 {
        Ok((results, logs))
    } else {
        match after_reruns(results, logs, files.drop_last()) {
            Ok((results, logs)) => after_rerun_file(results, logs, files.last()),
            Err(e) => Err(e),
        }
    }
}

/// The ledger after a run with the given date and commit: its tables are
/// empty at first, then come its artifacts in two passes, then the files of
/// its reruns.
pub open spec fn after_run(
    registry: Map<Key, bool>,
    tags: Set<Seq<char>>,
    date: Seq<char>,
    commit: Seq<char>,
    artifacts: Seq<Artifact>,
    reruns: Seq<RerunFile>,
) -> Result<Ledger, Error> {
    let start = Ledger {
        registry,
        tags,
        date,
        commit,
        results: Map::empty(),
        screenshots: Map::empty(),
        logs: Map::empty(),
    };
    match after_pass(start, artifacts, false) {
        Ok(first) => match after_pass(first, artifacts, true) {
            Ok(second) => match after_reruns(second.results, second.logs, reruns) {
                Ok((results, logs)) => Ok(Ledger { results, logs, ..second }),
                Err(e) => Err(e),
            },
            Err(e) => Err(e),
        },
        Err(e) => Err(e),
    }
}

impl Run {
    /// Records one artifact, by its kind. Where it fails, nothing is recorded.
    pub fn record_artifact(
        &mut self,
        registry: &mut Table<bool>,
        tags: &mut NameSet,
        artifact: &Artifact,
    ) -> (r: Result<(), Error>)
        ensures
            final(self).date == old(self).date,
            final(self).commit == old(self).commit,
            match after_artifact(ledger(*old(registry), *old(tags), *old(self)), *artifact) {
                Ok(l) => r is Ok && ledger(*final(registry), *final(tags), *final(self)) == l,
                Err(e) => r == Err::<(), Error>(e) && ledger(
                    *final(registry),
                    *final(tags),
                    *final(self),
                ) == ledger(*old(registry), *old(tags), *old(self)),
            },
    {
        match artifact.kind.route() {
            Route::Listing(outcome) => self.record_listing(
                registry,
                &artifact.platform,
                outcome,
                artifact.text.as_str(),
            ),
            Route::Comparison(provider) => self.record_screenshots(
                registry,
                tags,
                &artifact.platform,
                provider,
                &artifact.screenshots,
            ),
        }
    }

    /// Records the artifacts of one pass, in their order. The first that fails
    /// ends the pass.
    fn record_pass(
        &mut self,
        registry: &mut Table<bool>,
        tags: &mut NameSet,
        artifacts: &Vec<Artifact>,
        second: bool,
    ) -> (r: Result<(), Error>)
        ensures
            final(self).date == old(self).date,
            final(self).commit == old(self).commit,
            match after_pass(
                ledger(*old(registry), *old(tags), *old(self)),
                artifacts@,
                second,
            ) {
                Ok(l) => r is Ok && ledger(*final(registry), *final(tags), *final(self)) == l,
                Err(e) => r == Err::<(), Error>(e),
            },
    {
        let ghost start = ledger(*registry, *tags, *self);
        let mut i: usize = 0;
        assert(artifacts@.take(0) =~= Seq::empty());
        while i < artifacts.len()
            invariant
                i <= artifacts.len(),
                start == ledger(*old(registry), *old(tags), *old(self)),
                self.date == old(self).date,
                self.commit == old(self).commit,
                after_pass(start, artifacts@.take(i as int), second) == Ok::<Ledger, Error>(
                    ledger(*registry, *tags, *self),
                ),
            decreases artifacts.len() - i,
        {
            proof {
                assert(artifacts@.take(i + 1).drop_last() =~= artifacts@.take(i as int));
                assert(artifacts@.take(i + 1).last() == artifacts@[i as int]);
            }
            let artifact = &artifacts[i];
            if (artifact.kind == Kind::PixelEagle) == second {
                match self.record_artifact(registry, tags, artifact) {
                    Ok(()) => {},
                    Err(e) => {
                        proof {
                            assert(after_pass(start, artifacts@.take(i + 1), second) == Err::<
                                Ledger,
                                Error,
                            >(e));
                            lemma_pass_fails(start, artifacts@, second, i + 1);
                        }
                        return Err(e);
                    },
                }
            }
            i += 1;
        }
        assert(artifacts@.take(i as int) =~= artifacts@);
        Ok(())
    }

    /// Lays the files of the reruns over the run, in their order. The first
    /// that fails ends the reading.
    fn record_reruns(&mut self, files: &Vec<RerunFile>) -> (r: Result<(), Error>)
        ensures
            final(self).date == old(self).date,
            final(self).commit == old(self).commit,
            final(self).screenshots == old(self).screenshots,
            match after_reruns(old(self).results@, old(self).logs@, files@) {
                Ok((results, logs)) => {
                    &&& r is Ok
                    &&& final(self).results@ == results
                    &&& final(self).logs@ == logs
                },
                Err(e) => r == Err::<(), Error>(e),
            },
    {
        let ghost results = self.results@;
        let ghost logs = self.logs@;
        let mut i: usize = 0;
        assert(files@.take(0) =~= Seq::empty());
        while i < files.len()
            invariant
                i <= files.len(),
                results == old(self).results@,
                logs == old(self).logs@,
                self.date == old(self).date,
                self.commit == old(self).commit,
                self.screenshots == old(self).screenshots,
                after_reruns(results, logs, files@.take(i as int)) == Ok::<
                    (Map<Key, Outcome>, Map<Key, Seq<char>>),
                    Error,
                >((self.results@, self.logs@)),
            decreases files.len() - i,
        {
            proof {
                assert(files@.take(i + 1).drop_last() =~= files@.take(i as int));
                assert(files@.take(i + 1).last() == files@[i as int]);
            }
            let file = &files[i];
            match self.record_rerun(&file.platform, file.name.as_str(), file.text.as_str()) {
                Ok(()) => {},
                Err(e) => {
                    proof {
                        assert(after_reruns(results, logs, files@.take(i + 1)) == Err::<
                            (Map<Key, Outcome>, Map<Key, Seq<char>>),
                            Error,
                        >(e));
                        lemma_reruns_fail(results, logs, files@, i + 1);
                    }
                    return Err(e);
                },
            }
            i += 1;
        }
        assert(files@.take(i as int) =~= files@);
        Ok(())
    }
}

/// A pass that has failed on the first `n` artifacts fails on all of them, in
/// the same way.
pub proof fn lemma_pass_fails(l: Ledger, artifacts: Seq<Artifact>, second: bool, n: int)
    requires
        0 <= n <= artifacts.len(),
        after_pass(l, artifacts.take(n), second) is Err,
    ensures
        after_pass(l, artifacts, second) == after_pass(l, artifacts.take(n), second),
    decreases artifacts.len() - n,
{
    if n < artifacts.len() {
        assert(artifacts.take(n + 1).drop_last() =~= artifacts.take(n));
        lemma_pass_fails(l, artifacts, second, n + 1);
    } else {
        assert(artifacts.take(n) =~= artifacts);
    }
}

/// A reading of reruns that has failed on the first `n` files fails on all of
/// them, in the same way.
pub proof fn lemma_reruns_fail(
    results: Map<Key, Outcome>,
    logs: Map<Key, Seq<char>>,
    files: Seq<RerunFile>,
    n: int,
)
    requires
        0 <= n <= files.len(),
        after_reruns(results, logs, files.take(n)) is Err,
    ensures
        after_reruns(results, logs, files) == after_reruns(results, logs, files.take(n)),
    decreases files.len() - n,
{
    if n < files.len() {
        assert(files.take(n + 1).drop_last() =~= files.take(n));
        lemma_reruns_fail(results, logs, files, n + 1);
    } else {
        assert(files.take(n) =~= files);
    }
}

/// All that the runs read so far have shown.
#[derive(Debug)]
pub struct Scan {
    /// The examples seen, by category and name, each with its flag.
    pub registry: Table<bool>,
    /// The tags seen on the mobile platform.
    pub mobile_tags: NameSet,
    /// The runs, in the order in which they were added.
    pub runs: Vec<Run>,
}

/// What a `Scan` holds.
pub ghost struct ScanView {
    pub registry: Map<Key, bool>,
    pub mobile_tags: Set<Seq<char>>,
    pub runs: Seq<RunView>,
}

impl View for Scan {
    type V = ScanView;

    open spec fn view(&self) -> ScanView {
        ScanView {
            registry: self.registry@,
            mobile_tags: self.mobile_tags@,
            runs: run_views(self.runs@),
        }
    }
}

/// The scan with one run more: the run has the given date and commit and the
/// tables that its artifacts and the files of its reruns leave, and the scan
/// has the registry and the tags that they leave. Where an artifact or a file
/// fails, there is no scan any more.
pub open spec fn with_run(
    scan: ScanView,
    date: Seq<char>,
    commit: Seq<char>,
    artifacts: Seq<Artifact>,
    reruns: Seq<RerunFile>,
) -> Result<ScanView, Error> {
    match after_run(scan.registry, scan.mobile_tags, date, commit, artifacts, reruns) {
        Ok(l) => Ok(
            ScanView {
                registry: l.registry,
                mobile_tags: l.tags,
                runs: scan.runs.push(
                    RunView {
                        date,
                        commit,
                        results: l.results,
                        screenshots: l.screenshots,
                        logs: l.logs,
                    },
                ),
            },
        ),
        Err(e) => Err(e),
    }
}

impl Scan {
    /// The scan before any run.
    pub fn new() -> (scan: Scan)
        ensures
            scan@ == (ScanView {
                registry: Map::empty(),
                mobile_tags: Set::empty(),
                runs: Seq::empty(),
            }),
    {
        let scan = Scan { registry: Table::new(), mobile_tags: NameSet::new(), runs: Vec::new() };
        assert(scan@.runs =~= Seq::empty());
        scan
    }

    /// Adds a run: its artifacts are read in two passes, `PixelEagle` last,
    /// then the files of its reruns. An artifact or a file that fails fails
    /// the scan.
    pub fn add_run(
        self,
        date: String,
        commit: String,
        artifacts: &Vec<Artifact>,
        reruns: &Vec<RerunFile>,
    ) -> (r: Result<Scan, Error>)
        ensures
            match with_run(self@, date@, commit@, artifacts@, reruns@) {
                Ok(after) => r matches Ok(scan) && scan@ == after,
                Err(e) => r matches Err(x) && x == e,
            },
    {
        let mut registry = self.registry;
        let mut tags = self.mobile_tags;
        let mut runs = self.runs;
        let mut run = Run::new(date, commit);
        match run.record_pass(&mut registry, &mut tags, artifacts, false) {
            Ok(()) => {},
            Err(e) => {
                return Err(e);
            },
        }
        match run.record_pass(&mut registry, &mut tags, artifacts, true) {
            Ok(()) => {},
            Err(e) => {
                return Err(e);
            },
        }
        match run.record_reruns(reruns) {
            Ok(()) => {},
            Err(e) => {
                return Err(e);
            },
        }
        let ghost before = runs@;
        let ghost added = run@;
        runs.push(run);
        assert(run_views(runs@) =~= run_views(before).push(added));
        Ok(Scan { registry, mobile_tags: tags, runs })
    }

    /// The report on the runs read so far.
    pub fn report(&self) -> (examples: Vec<Example>)
        ensures
            is_report(example_views(examples@), self@.registry, self@.runs),
    {
        aggregate(&self.registry, &self.runs)
    }
}

/// Whether a ledger holds a result wherever it holds a screenshot.
pub open spec fn screenshots_have_results(l: Ledger) -> bool {
    forall|key: Key| #[trigger] l.screenshots.contains_key(key) ==> l.results.contains_key(key)
}

/// Whether a ledger holds all that another held: the date and the commit of
/// the run, the examples of the registry, the flags that were set, the tags,
/// and a result and a screenshot wherever there was one.
pub open spec fn extends(before: Ledger, after: Ledger) -> bool {
    &&& after.date == before.date
    &&& after.commit == before.commit
    &&& forall|k: Key| #[trigger]
        before.registry.contains_key(k) ==> after.registry.contains_key(k)
    &&& forall|k: Key| #[trigger] is_flagged(before.registry, k) ==> is_flagged(after.registry, k)
    &&& forall|t: Seq<char>| #[trigger] before.tags.contains(t) ==> after.tags.contains(t)
    &&& forall|k: Key| #[trigger] before.results.contains_key(k) ==> after.results.contains_key(k)
    &&& forall|k: Key| #[trigger]
        before.screenshots.contains_key(k) ==> after.screenshots.contains_key(k)
}

/// An artifact takes nothing away: what the ledger held it still holds, a flag
/// once set stays set, and each screenshot still has its result.
pub proof fn lemma_artifact_extends(l: Ledger, artifact: Artifact)
    requires
        after_artifact(l, artifact) is Ok,
        screenshots_have_results(l),
    ensures
        extends(l, after_artifact(l, artifact).unwrap()),
        screenshots_have_results(after_artifact(l, artifact).unwrap()),
{
    let after = after_artifact(l, artifact).unwrap();
    match artifact.kind.spec_route() {
        Route::Listing(outcome) => {
            let examples = examples_of(lines(artifact.text@));
            assert forall|k: Key| #[trigger] l.registry.contains_key(k) implies
                after.registry.contains_key(k) by {
                lemma_registry_after_listing(l.registry, outcome, examples, k);
            }
            assert forall|k: Key| #[trigger] is_flagged(l.registry, k) implies is_flagged(
                after.registry,
                k,
            ) by {
                lemma_registry_after_listing(l.registry, outcome, examples, k);
            }
            assert forall|k: Key| #[trigger] l.results.contains_key(k) implies
                after.results.contains_key(k) by {
                lemma_results_after_listing(
                    l.results,
                    artifact.platform.label(),
                    outcome,
                    examples,
                    k,
                );
            }
        },
        Route::Comparison(provider) => {
            let shots = screenshot_views(artifact.screenshots@);
            assert forall|k: Key| #[trigger] l.registry.contains_key(k) implies
                after.registry.contains_key(k) by {
                lemma_registry_after_shots(l.registry, artifact.platform, shots, k);
            }
            assert forall|k: Key| #[trigger] is_flagged(l.registry, k) implies is_flagged(
                after.registry,
                k,
            ) by {
                lemma_registry_after_shots(l.registry, artifact.platform, shots, k);
            }
            assert forall|t: Seq<char>| #[trigger] l.tags.contains(t) implies after.tags.contains(
                t,
            ) by {
                lemma_tags_after_shots(l.tags, artifact.platform, shots, t);
            }
            assert forall|k: Key| #[trigger] l.results.contains_key(k) implies
                after.results.contains_key(k) by {
                lemma_results_after_shots(l.results, artifact.platform, shots, k);
            }
            assert forall|k: Key| #[trigger] l.screenshots.contains_key(k) implies
                after.screenshots.contains_key(k) by {
                lemma_screenshots_after_shots(l.screenshots, artifact.platform, provider, shots, k);
            }
            assert forall|k: Key| #[trigger] after.screenshots.contains_key(k) implies
                after.results.contains_key(k) by {
                lemma_screenshots_after_shots(l.screenshots, artifact.platform, provider, shots, k);
                lemma_results_after_shots(l.results, artifact.platform, shots, k);
            }
        },
    }
}

/// A pass takes nothing away.
pub proof fn lemma_pass_extends(l: Ledger, artifacts: Seq<Artifact>, second: bool)
    requires
        after_pass(l, artifacts, second) is Ok,
        screenshots_have_results(l),
    ensures
        extends(l, after_pass(l, artifacts, second).unwrap()),
        screenshots_have_results(after_pass(l, artifacts, second).unwrap()),
    decreases artifacts.len(),
{
    if artifacts.len() > 0 {
        lemma_pass_extends(l, artifacts.drop_last(), second);
        let before = after_pass(l, artifacts.drop_last(), second).unwrap();
        if in_pass(artifacts.last(), second) {
            lemma_artifact_extends(before, artifacts.last());
        }
    }
}

/// The files of reruns take no result away.
pub proof fn lemma_reruns_extend(
    results: Map<Key, Outcome>,
    logs: Map<Key, Seq<char>>,
    files: Seq<RerunFile>,
    key: Key,
)
    requires
        after_reruns(results, logs, files) is Ok,
        results.contains_key(key),
    ensures
        after_reruns(results, logs, files).unwrap().0.contains_key(key),
    decreases files.len(),
{
    if files.len() > 0 {
        lemma_reruns_extend(results, logs, files.drop_last(), key);
        let before = after_reruns(results, logs, files.drop_last()).unwrap();
        let file = files.last();
        if rerun_role(file.name@) is Successes {
            lemma_results_after_listing(
                before.0,
                file.platform.label(),
                Outcome::NoScreenshots,
                examples_of(lines(file.text@)),
                key,
            );
        }
    }
}

/// A run that was added has the date and the commit that it was given, and
/// each of its screenshots has a result beside it; and of what the scan held
/// before, the run has taken nothing away: each example is
/// still registered, each flag that was set is still set, each tag is still
/// there.
pub proof fn lemma_run_extends(
    registry: Map<Key, bool>,
    tags: Set<Seq<char>>,
    date: Seq<char>,
    commit: Seq<char>,
    artifacts: Seq<Artifact>,
    reruns: Seq<RerunFile>,
)
    requires
        after_run(registry, tags, date, commit, artifacts, reruns) is Ok,
    ensures
        ({
            let after = after_run(registry, tags, date, commit, artifacts, reruns).unwrap();
            &&& after.date == date
            &&& after.commit == commit
            &&& screenshots_have_results(after)
            &&& forall|k: Key| #[trigger]
                registry.contains_key(k) ==> after.registry.contains_key(k)
            &&& forall|k: Key| #[trigger] is_flagged(registry, k) ==> is_flagged(after.registry, k)
            &&& forall|t: Seq<char>| #[trigger] tags.contains(t) ==> after.tags.contains(t)
        }),
{
    let start = Ledger {
        registry,
        tags,
        date,
        commit,
        results: Map::empty(),
        screenshots: Map::empty(),
        logs: Map::empty(),
    };
    lemma_pass_extends(start, artifacts, false);
    let first = after_pass(start, artifacts, false).unwrap();
    lemma_pass_extends(first, artifacts, true);
    let second = after_pass(first, artifacts, true).unwrap();
    let after = after_run(registry, tags, date, commit, artifacts, reruns).unwrap();
    assert(after.registry == second.registry);
    assert(after.tags == second.tags);
    assert(after.screenshots == second.screenshots);
    assert forall|k: Key| #[trigger] after.screenshots.contains_key(k) implies
        after.results.contains_key(k) by {
        assert(second.results.contains_key(k));
        lemma_reruns_extend(second.results, second.logs, reruns, k);
    }
    assert forall|k: Key| #[trigger] registry.contains_key(k) implies
        after.registry.contains_key(k) by {
        assert(start.registry.contains_key(k));
        assert(first.registry.contains_key(k));
    }
    assert forall|k: Key| #[trigger] is_flagged(registry, k) implies is_flagged(
        after.registry,
        k,
    ) by {
        assert(is_flagged(start.registry, k));
        assert(is_flagged(first.registry, k));
    }
    assert forall|t: Seq<char>| #[trigger] tags.contains(t) implies after.tags.contains(t) by {
        assert(start.tags.contains(t));
        assert(first.tags.contains(t));
    }
}


/// Whether an artifact is one of `Percy` with a screenshot for the key.
pub open spec fn percy_files(artifact: Artifact, key: Key) -> bool {
    artifact.kind == Kind::Percy && exists|i: int|
        0 <= i < artifact.screenshots@.len() && shot_key(
            artifact.platform,
            #[trigger] screenshot_views(artifact.screenshots@)[i],
        ) == key
}

/// An artifact leaves the screenshot under a key as it is, unless it is one
/// of `Percy` with a screenshot for that key.
pub proof fn lemma_artifact_keeps_screenshot(l: Ledger, artifact: Artifact, key: Key)
    requires
        after_artifact(l, artifact) is Ok,
        l.screenshots.contains_key(key),
        !percy_files(artifact, key),
    ensures
        after_artifact(l, artifact).unwrap().screenshots.contains_key(key),
        after_artifact(l, artifact).unwrap().screenshots[key] == l.screenshots[key],
{
    match artifact.kind.spec_route() {
        Route::Listing(_) => {},
        Route::Comparison(provider) => {
            let shots = screenshot_views(artifact.screenshots@);
            if provider == Provider::PixelEagle {
                lemma_pixeleagle_yields(l.screenshots, artifact.platform, shots, key);
            } else {
                lemma_screenshots_after_shots(
                    l.screenshots,
                    artifact.platform,
                    provider,
                    shots,
                    key,
                );
                lemma_screenshots_are_kept(l.screenshots, artifact.platform, provider, shots, key);
            }
        },
    }
}

/// A pass that succeeds has succeeded on each beginning of its artifacts.
pub proof fn lemma_pass_begins(l: Ledger, artifacts: Seq<Artifact>, second: bool, n: int)
    requires
        0 <= n <= artifacts.len(),
        after_pass(l, artifacts, second) is Ok,
    ensures
        after_pass(l, artifacts.take(n), second) is Ok,
{
    if after_pass(l, artifacts.take(n), second) is Err {
        lemma_pass_fails(l, artifacts, second, n);
    }
}

/// What a pass holds under a key after the first `n` artifacts it still holds
/// at its end, unless one of the artifacts that follow is one of `Percy`, read
/// in this pass, with a screenshot for that key.
pub proof fn lemma_pass_keeps_screenshot(
    l: Ledger,
    artifacts: Seq<Artifact>,
    second: bool,
    n: int,
    key: Key,
)
    requires
        0 <= n <= artifacts.len(),
        after_pass(l, artifacts, second) is Ok,
        after_pass(l, artifacts.take(n), second).unwrap().screenshots.contains_key(key),
        forall|b: int|
            n <= b < artifacts.len() ==> !(in_pass(#[trigger] artifacts[b], second)
                && percy_files(artifacts[b], key)),
    ensures
        after_pass(l, artifacts, second).unwrap().screenshots.contains_key(key),
        after_pass(l, artifacts, second).unwrap().screenshots[key] == after_pass(
            l,
            artifacts.take(n),
            second,
        ).unwrap().screenshots[key],
    decreases artifacts.len(),
{
    if n == artifacts.len() {
        assert(artifacts.take(n) =~= artifacts);
    } else {
        let front = artifacts.drop_last();
        assert(front.take(n) =~= artifacts.take(n));
        assert forall|b: int| n <= b < front.len() implies !(in_pass(
            #[trigger] front[b],
            second,
        ) && percy_files(front[b], key)) by {
            assert(front[b] == artifacts[b]);
        }
        lemma_pass_keeps_screenshot(l, front, second, n, key);
        let before = after_pass(l, front, second).unwrap();
        assert(artifacts.last() == artifacts[artifacts.len() - 1]);
        if in_pass(artifacts.last(), second) {
            lemma_artifact_keeps_screenshot(before, artifacts.last(), key);
        }
    }
}

/// In a run, the screenshot that `Percy` has for a key is the one that is
/// kept, wherever among the artifacts `PixelEagle` has one for the same key:
/// the run holds under the key of a screenshot of `Percy` what is kept of it,
/// unless `Percy` has another for that key further on. What is kept is its
/// image and its viewer's URL as the provider gave them, and its state:
/// similar where its ratio is zero, as the provider gave it elsewhere.
pub proof fn lemma_run_keeps_percy(
    registry: Map<Key, bool>,
    tags: Set<Seq<char>>,
    date: Seq<char>,
    commit: Seq<char>,
    artifacts: Seq<Artifact>,
    reruns: Seq<RerunFile>,
    a: int,
    i: int,
)
    requires
        after_run(registry, tags, date, commit, artifacts, reruns) is Ok,
        0 <= a < artifacts.len(),
        artifacts[a].kind == Kind::Percy,
        0 <= i < artifacts[a].screenshots@.len(),
        forall|j: int|
            i < j < artifacts[a].screenshots@.len() ==> shot_key(
                artifacts[a].platform,
                #[trigger] screenshot_views(artifacts[a].screenshots@)[j],
            ) != shot_key(artifacts[a].platform, artifacts[a].screenshots@[i]@),
        forall|b: int|
            a < b < artifacts.len() ==> !percy_files(
                #[trigger] artifacts[b],
                shot_key(artifacts[a].platform, artifacts[a].screenshots@[i]@),
            ),
    ensures
        after_run(
            registry,
            tags,
            date,
            commit,
            artifacts,
            reruns,
        ).unwrap().screenshots.contains_key(
            shot_key(artifacts[a].platform, artifacts[a].screenshots@[i]@),
        ),
        ({
            let shot = artifacts[a].screenshots@[i]@;
            let key = shot_key(artifacts[a].platform, shot);
            let run = after_run(registry, tags, date, commit, artifacts, reruns).unwrap();
            &&& run.screenshots[key] == kept(shot)
            &&& run.screenshots[key].image == shot.screenshot
            &&& run.screenshots[key].viewer == shot.snapshot_url
            &&& run.screenshots[key].state == if shot.diff_ratio.is_zero() {
                ScreenshotState::Similar
            } else {
                shot.changed
            }
        }),
{
    let artifact = artifacts[a];
    let shots = screenshot_views(artifact.screenshots@);
    let key = shot_key(artifact.platform, shots[i]);
    let start = Ledger {
        registry,
        tags,
        date,
        commit,
        results: Map::empty(),
        screenshots: Map::empty(),
        logs: Map::empty(),
    };
    let first = after_pass(start, artifacts, false).unwrap();
    lemma_pass_begins(start, artifacts, false, a + 1);
    let upto = artifacts.take(a + 1);
    assert(upto.last() == artifact);
    assert(in_pass(artifact, false));
    let before = after_pass(start, upto.drop_last(), false).unwrap();
    lemma_percy_prevails(before.screenshots, artifact.platform, shots, i);
    assert(after_pass(start, upto, false).unwrap().screenshots.contains_key(key));
    lemma_pass_keeps_screenshot(start, artifacts, false, a + 1, key);
    lemma_pass_begins(first, artifacts, true, 0);
    assert(artifacts.take(0) =~= Seq::empty());
    lemma_pass_keeps_screenshot(first, artifacts, true, 0, key);
}


/// Whether an artifact is one of `PixelEagle` with a screenshot for the key.
pub open spec fn pixeleagle_files(artifact: Artifact, key: Key) -> bool {
    artifact.kind == Kind::PixelEagle && exists|i: int|
        0 <= i < artifact.screenshots@.len() && shot_key(
            artifact.platform,
            #[trigger] screenshot_views(artifact.screenshots@)[i],
        ) == key
}

/// An artifact files no screenshot under a key for which it has none.
pub proof fn lemma_artifact_leaves_absent(l: Ledger, artifact: Artifact, key: Key)
    requires
        after_artifact(l, artifact) is Ok,
        !l.screenshots.contains_key(key),
        !percy_files(artifact, key),
        !pixeleagle_files(artifact, key),
    ensures
        !after_artifact(l, artifact).unwrap().screenshots.contains_key(key),
{
    match artifact.kind.spec_route() {
        Route::Listing(_) => {},
        Route::Comparison(provider) => {
            let shots = screenshot_views(artifact.screenshots@);
            lemma_screenshots_after_shots(l.screenshots, artifact.platform, provider, shots, key);
        },
    }
}

/// A pass files no screenshot under a key for which none of the artifacts
/// that it reads has one.
pub proof fn lemma_pass_leaves_absent(
    l: Ledger,
    artifacts: Seq<Artifact>,
    second: bool,
    key: Key,
)
    requires
        after_pass(l, artifacts, second) is Ok,
        !l.screenshots.contains_key(key),
        forall|b: int|
            0 <= b < artifacts.len() && in_pass(#[trigger] artifacts[b], second) ==> !percy_files(
                artifacts[b],
                key,
            ) && !pixeleagle_files(artifacts[b], key),
    ensures
        !after_pass(l, artifacts, second).unwrap().screenshots.contains_key(key),
    decreases artifacts.len(),
{
    if artifacts.len() > 0 {
        let front = artifacts.drop_last();
        assert forall|b: int|
            0 <= b < front.len() && in_pass(#[trigger] front[b], second) implies !percy_files(
            front[b],
            key,
        ) && !pixeleagle_files(front[b], key) by {
            assert(front[b] == artifacts[b]);
        }
        lemma_pass_leaves_absent(l, front, second, key);
        assert(artifacts.last() == artifacts[artifacts.len() - 1]);
        if in_pass(artifacts.last(), second) {
            lemma_artifact_leaves_absent(
                after_pass(l, front, second).unwrap(),
                artifacts.last(),
                key,
            );
        }
    }
}

/// In a run, a screenshot of `PixelEagle` is kept where `Percy` has none for
/// its key and `PixelEagle` has none for it before: the run then holds under
/// that key what is kept of the screenshot, its image and its viewer's URL as
/// the provider gave them, its state similar where its ratio is zero and as
/// the provider gave it elsewhere.
pub proof fn lemma_run_keeps_pixeleagle(
    registry: Map<Key, bool>,
    tags: Set<Seq<char>>,
    date: Seq<char>,
    commit: Seq<char>,
    artifacts: Seq<Artifact>,
    reruns: Seq<RerunFile>,
    a: int,
    i: int,
)
    requires
        after_run(registry, tags, date, commit, artifacts, reruns) is Ok,
        0 <= a < artifacts.len(),
        artifacts[a].kind == Kind::PixelEagle,
        0 <= i < artifacts[a].screenshots@.len(),
        forall|j: int|
            0 <= j < i ==> shot_key(
                artifacts[a].platform,
                #[trigger] screenshot_views(artifacts[a].screenshots@)[j],
            ) != shot_key(artifacts[a].platform, artifacts[a].screenshots@[i]@),
        forall|b: int|
            0 <= b < artifacts.len() ==> !percy_files(
                #[trigger] artifacts[b],
                shot_key(artifacts[a].platform, artifacts[a].screenshots@[i]@),
            ),
        forall|b: int|
            0 <= b < a ==> !pixeleagle_files(
                #[trigger] artifacts[b],
                shot_key(artifacts[a].platform, artifacts[a].screenshots@[i]@),
            ),
    ensures
        ({
            let shot = artifacts[a].screenshots@[i]@;
            let key = shot_key(artifacts[a].platform, shot);
            let run = after_run(registry, tags, date, commit, artifacts, reruns).unwrap();
            &&& run.screenshots.contains_key(key)
            &&& run.screenshots[key] == kept(shot)
            &&& run.screenshots[key].image == shot.screenshot
            &&& run.screenshots[key].viewer == shot.snapshot_url
            &&& run.screenshots[key].state == if shot.diff_ratio.is_zero() {
                ScreenshotState::Similar
            } else {
                shot.changed
            }
        }),
{
    let artifact = artifacts[a];
    let shots = screenshot_views(artifact.screenshots@);
    let key = shot_key(artifact.platform, shots[i]);
    let start = Ledger {
        registry,
        tags,
        date,
        commit,
        results: Map::empty(),
        screenshots: Map::empty(),
        logs: Map::empty(),
    };
    lemma_pass_leaves_absent(start, artifacts, false, key);
    let first = after_pass(start, artifacts, false).unwrap();
    lemma_pass_begins(first, artifacts, true, a);
    let front = artifacts.take(a);
    assert forall|b: int|
        0 <= b < front.len() && in_pass(#[trigger] front[b], true) implies !percy_files(
        front[b],
        key,
    ) && !pixeleagle_files(front[b], key) by {
        assert(front[b] == artifacts[b]);
    }
    lemma_pass_leaves_absent(first, front, true, key);
    let before = after_pass(first, front, true).unwrap();
    lemma_pass_begins(first, artifacts, true, a + 1);
    let upto = artifacts.take(a + 1);
    assert(upto.last() == artifact);
    assert(upto.drop_last() =~= front);
    assert(in_pass(artifact, true));
    lemma_pixeleagle_first(before.screenshots, artifact.platform, shots, i);
    lemma_screenshots_after_shots(
        before.screenshots,
        artifact.platform,
        Provider::PixelEagle,
        shots,
        key,
    );
    assert(after_pass(first, upto, true).unwrap().screenshots.contains_key(key));
    lemma_pass_keeps_screenshot(first, artifacts, true, a + 1, key);
}

} // verus!
