//! One run: what each artifact adds to its results and screenshots, to the
//! registry of examples and to the set of mobile tags.

use crate::model::{Error, Outcome, Platform, Provider};
use crate::parse::{
    line_example, parse_line_chars, parse_screenshot_example, screenshot_example, ExampleName,
};
use crate::screenshot::{
    screenshot_views, ImageUrl, ScreenshotData, ScreenshotState, ScreenshotView,
    SnapshotViewerUrl,
};
use crate::table::{Key, NameSet, Table};
use crate::text::{
    chars_of, is_match_at, lines, matches_at, remove_all, remove_all_in, same, slice_of,
    split_lines, string_from, views,
};
use vstd::prelude::*;

verus! {

/// What a run keeps of one screenshot.
#[derive(Debug)]
pub struct Screenshot {
    pub image: ImageUrl,
    pub state: ScreenshotState,
    pub viewer: SnapshotViewerUrl,
}

/// What a kept screenshot holds.
pub ghost struct Kept {
    pub image: Seq<char>,
    pub state: ScreenshotState,
    pub viewer: Seq<char>,
}

impl View for Screenshot {
    type V = Kept;

    open spec fn view(&self) -> Kept {
        Kept { image: self.image.0@, state: self.state, viewer: self.viewer.0@ }
    }
}

/// One execution of the examples. Results and screenshots are keyed by the
/// name of an example and by the label of a platform or the tag of a device;
/// logs by the name of an example and the label of a platform.
#[derive(Debug)]
pub struct Run {
    pub date: String,
    pub commit: String,
    pub results: Table<Outcome>,
    pub screenshots: Table<Screenshot>,
    pub logs: Table<String>,
}

/// What a `Run` holds.
pub ghost struct RunView {
    pub date: Seq<char>,
    pub commit: Seq<char>,
    pub results: Map<Key, Outcome>,
    pub screenshots: Map<Key, Kept>,
    pub logs: Map<Key, Seq<char>>,
}

impl View for Run {
    type V = RunView;

    open spec fn view(&self) -> RunView {
        RunView {
            date: self.date@,
            commit: self.commit@,
            results: self.results@,
            screenshots: self.screenshots@,
            logs: self.logs@,
        }
    }
}

/// What a sequence of `Run` holds.
pub open spec fn run_views(runs: Seq<Run>) -> Seq<RunView> {
    Seq::new(runs.len(), |i: int| runs[i]@)
}

/// Whether the registry holds the example as flaky.
pub open spec fn is_flagged(registry: Map<Key, bool>, example: Key) -> bool {
    registry.contains_key(example) && registry[example]
}

/// The registry after an example was seen: it is registered, and flaky if it
/// was so before or if what was seen is evidence.
pub open spec fn noted(registry: Map<Key, bool>, example: Key, evidence: bool) -> Map<Key, bool> {
    registry.insert(example, is_flagged(registry, example) || evidence)
}

/// Whether each line names an example.
pub open spec fn lines_name_examples(lines: Seq<Seq<char>>) -> bool {
    forall|i: int| 0 <= i < lines.len() ==> (#[trigger] line_example(lines[i])) is Some
}

/// The examples that the lines name, as category and name.
pub open spec fn examples_of(lines: Seq<Seq<char>>) -> Seq<Key> {
    Seq::new(lines.len(), |i: int| line_example(lines[i]).unwrap())
}

/// The registry after a list of examples with one outcome: each is registered,
/// and a failure makes it flaky.
pub open spec fn registry_after_listing(
    registry: Map<Key, bool>,
    outcome: Outcome,
    examples: Seq<Key>,
) -> Map<Key, bool>
    decreases examples.len(),
{
    if examples.len() == 0 {
        registry
    } else {
        noted(
            registry_after_listing(registry, outcome, examples.drop_last()),
            examples.last(),
            outcome == Outcome::Failures,
        )
    }
}

/// The results after a list of examples with one outcome on one platform:
/// each has that outcome there, whatever it had before.
pub open spec fn results_after_listing(
    results: Map<Key, Outcome>,
    platform: Seq<char>,
    outcome: Outcome,
    examples: Seq<Key>,
) -> Map<Key, Outcome>
    decreases examples.len(),
{
    if examples.len() == 0 {
        results
    } else {
        results_after_listing(results, platform, outcome, examples.drop_last()).insert(
            (examples.last().1, platform),
            outcome,
        )
    }
}

/// Category and name of the example of a screenshot. On the mobile platform
/// the category is `Mobile` and the name is what the provider gave; elsewhere
/// the provider gave `<category>/<name>.<extension>`.
pub open spec fn shot_example(platform: Platform, shot: ScreenshotView) -> Option<Key> {
    if platform is Mobile {
        Some(("Mobile"@, shot.example))
    } else {
        screenshot_example(shot.example)
    }
}

/// Under what a screenshot is filed beside the example's name: its tag, or
/// without one the label of the platform.
pub open spec fn shot_column(platform: Platform, shot: ScreenshotView) -> Seq<char> {
    match shot.tag {
        Some(tag) => tag,
        None => platform.label(),
    }
}

/// The key under which a screenshot is filed.
pub open spec fn shot_key(platform: Platform, shot: ScreenshotView) -> Key {
    (shot_example(platform, shot).unwrap().1, shot_column(platform, shot))
}

/// What is kept of a screenshot. One with a ratio of zero is kept as similar,
/// whatever the provider said of it.
pub open spec fn kept(shot: ScreenshotView) -> Kept {
    Kept {
        image: shot.screenshot,
        state: if shot.diff_ratio.is_zero() {
            ScreenshotState::Similar
        } else {
            shot.changed
        },
        viewer: shot.snapshot_url,
    }
}

/// Whether each screenshot names an example.
pub open spec fn shots_name_examples(platform: Platform, shots: Seq<ScreenshotView>) -> bool {
    forall|i: int| 0 <= i < shots.len() ==> (#[trigger] shot_example(platform, shots[i])) is Some
}

/// The registry after screenshots: the example of each is registered, and one
/// that the provider calls changed makes it flaky.
pub open spec fn registry_after_shots(
    registry: Map<Key, bool>,
    platform: Platform,
    shots: Seq<ScreenshotView>,
) -> Map<Key, bool>
    decreases shots.len(),
{
    if shots.len() == 0 {
        registry
    } else {
        noted(
            registry_after_shots(registry, platform, shots.drop_last()),
            shot_example(platform, shots.last()).unwrap(),
            shots.last().changed == ScreenshotState::Changed,
        )
    }
}

/// The mobile tags after screenshots: on the mobile platform each tag joins
/// them.
pub open spec fn tags_after_shots(
    tags: Set<Seq<char>>,
    platform: Platform,
    shots: Seq<ScreenshotView>,
) -> Set<Seq<char>>
    decreases shots.len(),
{
    if shots.len() == 0 {
        tags
    } else {
        let before = tags_after_shots(tags, platform, shots.drop_last());
        match shots.last().tag {
            Some(tag) => if platform is Mobile {
                before.insert(tag)
            } else {
                before
            },
            None => before,
        }
    }
}

/// The results after screenshots: where none was recorded under the key of a
/// screenshot, a success is.
pub open spec fn results_after_shots(
    results: Map<Key, Outcome>,
    platform: Platform,
    shots: Seq<ScreenshotView>,
) -> Map<Key, Outcome>
    decreases shots.len(),
{
    if shots.len() == 0 {
        results
    } else {
        let before = results_after_shots(results, platform, shots.drop_last());
        let key = shot_key(platform, shots.last());
        if before.contains_key(key) {
            before
        } else {
            before.insert(key, Outcome::Successes)
        }
    }
}

/// The screenshots of a run after one more: `Percy` files it under its key in
/// place of what was there; `PixelEagle` only where nothing was there.
pub open spec fn screenshots_after_shot(
    screenshots: Map<Key, Kept>,
    platform: Platform,
    provider: Provider,
    shot: ScreenshotView,
) -> Map<Key, Kept> {
    let key = shot_key(platform, shot);
    if provider == Provider::PixelEagle && screenshots.contains_key(key) {
        screenshots
    } else {
        screenshots.insert(key, kept(shot))
    }
}

/// The screenshots of a run after those of one artifact, taken in their order.
pub open spec fn screenshots_after_shots(
    screenshots: Map<Key, Kept>,
    platform: Platform,
    provider: Provider,
    shots: Seq<ScreenshotView>,
) -> Map<Key, Kept>
    decreases shots.len(),
{
    if shots.len() == 0 {
        screenshots
    } else {
        screenshots_after_shot(
            screenshots_after_shots(screenshots, platform, provider, shots.drop_last()),
            platform,
            provider,
            shots.last(),
        )
    }
}

/// Category and name of each of a sequence of examples.
pub open spec fn name_keys(names: Seq<ExampleName>) -> Seq<Key> {
    Seq::new(names.len(), |i: int| (names[i].category@, names[i].name@))
}

/// Reads the lines of a list of examples. One line that names no example
/// fails the list.
pub fn parse_listing(text: &str) -> (r: Result<Vec<ExampleName>, Error>)
    ensures
        match r {
            Ok(names) => lines_name_examples(lines(text@)) && name_keys(names@) == examples_of(
                lines(text@),
            ),
            Err(e) => e == Error::MalformedLine && !lines_name_examples(lines(text@)),
        },
{
    let rows = split_lines(&chars_of(text));
    let ghost all = lines(text@);
    let mut names: Vec<ExampleName> = Vec::new();
    let mut i: usize = 0;
    while i < rows.len()
        invariant
            i <= rows.len(),
            all == lines(text@),
            views(rows@) == all,
            names.len() == i,
            forall|j: int| 0 <= j < i ==> #[trigger] line_example(all[j]) == Some(
                (names@[j].category@, names@[j].name@),
            ),
        decreases rows.len() - i,
    {
        assert(views(rows@)[i as int] == rows@[i as int]@);
        match parse_line_chars(&rows[i]) {
            Ok(name) => {
                names.push(name);
            },
            Err(e) => {
                assert(0 <= i < all.len() && line_example(all[i as int]) is None);
                assert(!lines_name_examples(all));
                return Err(e);
            },
        }
        i += 1;
    }
    assert(name_keys(names@) =~= examples_of(all));
    Ok(names)
}

/// Notes in the registry that an example was seen.
pub fn note(registry: &mut Table<bool>, category: &str, name: &str, evidence: bool)
    ensures
        final(registry)@ == noted(old(registry)@, (category@, name@), evidence),
{
    let flagged = match registry.get(category, name) {
        Some(flag) => *flag,
        None => false,
    };
    registry.insert(category.to_owned(), name.to_owned(), flagged || evidence);
}

/// The examples of a sequence of screenshots, as category and name.
pub open spec fn shot_examples(platform: Platform, shots: Seq<ScreenshotView>) -> Seq<Key> {
    Seq::new(shots.len(), |i: int| shot_example(platform, shots[i]).unwrap())
}

/// Reads the example of each screenshot. One screenshot that names no example
/// fails them all.
pub fn parse_shot_examples(platform: &Platform, shots: &Vec<ScreenshotData>) -> (r: Result<
    Vec<ExampleName>,
    Error,
>)
    ensures
        match r {
            Ok(names) => shots_name_examples(*platform, screenshot_views(shots@)) && name_keys(
                names@,
            ) == shot_examples(*platform, screenshot_views(shots@)),
            Err(e) => e == Error::MalformedExample && !shots_name_examples(
                *platform,
                screenshot_views(shots@),
            ),
        },
{
    let ghost all = screenshot_views(shots@);
    let mut names: Vec<ExampleName> = Vec::new();
    let mut i: usize = 0;
    while i < shots.len()
        invariant
            i <= shots.len(),
            all == screenshot_views(shots@),
            names.len() == i,
            forall|j: int| 0 <= j < i ==> #[trigger] shot_example(*platform, all[j]) == Some(
                (names@[j].category@, names@[j].name@),
            ),
        decreases shots.len() - i,
    {
        assert(all[i as int] == shots@[i as int]@);
        if platform.is_mobile() {
            names.push(
                ExampleName { category: "Mobile".to_owned(), name: shots[i].example.clone() },
            );
        } else {
            match parse_screenshot_example(shots[i].example.as_str()) {
                Ok(name) => {
                    names.push(name);
                },
                Err(e) => {
                    assert(0 <= i < all.len() && shot_example(*platform, all[i as int]) is None);
                    assert(!shots_name_examples(*platform, all));
                    return Err(e);
                },
            }
        }
        i += 1;
    }
    assert(name_keys(names@) =~= shot_examples(*platform, all));
    Ok(names)
}

/// What a file of a rerun is.
#[derive(Debug)]
pub enum RerunRole {
    /// The list of the examples that passed.
    Successes,
    /// The log of the example with this name.
    Log(String),
    /// Nothing that is read.
    Other,
}

/// What a `RerunRole` holds.
pub ghost enum RerunRoleView {
    Successes,
    Log(Seq<char>),
    Other,
}

impl View for RerunRole {
    type V = RerunRoleView;

    open spec fn view(&self) -> RerunRoleView {
        match self {
            RerunRole::Successes => RerunRoleView::Successes,
            RerunRole::Log(name) => RerunRoleView::Log(name@),
            RerunRole::Other => RerunRoleView::Other,
        }
    }
}

/// The ending of the name of a log: `.log`.
pub open spec fn log_suffix() -> Seq<char> {
    seq!['.', 'l', 'o', 'g']
}

/// What the file of a rerun with the given name is: `successes` is the list
/// of the examples that passed, `<example>.log` the log of an example.
pub open spec fn rerun_role(name: Seq<char>) -> RerunRoleView {
    if name == "successes"@ {
        RerunRoleView::Successes
    } else if matches_at(name, log_suffix(), name.len() - 4) {
        RerunRoleView::Log(name.take(name.len() - 4))
    } else {
        RerunRoleView::Other
    }
}

/// What the file of a rerun with the given name is.
pub fn rerun_file_role(name: &str) -> (role: RerunRole)
    ensures
        role@ == rerun_role(name@),
{
    if same(name, "successes") {
        return RerunRole::Successes;
    }
    let chars = chars_of(name);
    let suffix: Vec<char> = vec!['.', 'l', 'o', 'g'];
    if chars.len() >= 4 && is_match_at(&chars, &suffix, chars.len() - 4) {
        RerunRole::Log(string_from(&slice_of(&chars, 0, chars.len() - 4)))
    } else {
        RerunRole::Other
    }
}

/// The character that begins an escape sequence of a terminal.
pub const ESCAPE: char = '\u{1b}';

/// The escape sequences that colour a terminal's output, in the order in which
/// they are taken out of a log: reset, bold, dim, red, green and yellow. Each
/// begins with the escape character; `[0m` without it is plain text.
pub open spec fn color_codes() -> Seq<Seq<char>> {
    seq![
        seq![ESCAPE, '[', '0', 'm'],
        seq![ESCAPE, '[', '1', 'm'],
        seq![ESCAPE, '[', '2', 'm'],
        seq![ESCAPE, '[', '3', '1', 'm'],
        seq![ESCAPE, '[', '3', '2', 'm'],
        seq![ESCAPE, '[', '3', '3', 'm'],
    ]
}

/// A text without the given fragments: the first is taken out of the text, the
/// second out of what is left, and so on.
pub open spec fn without(s: Seq<char>, fragments: Seq<Seq<char>>) -> Seq<char>
    decreases fragments.len(),
{
    if fragments.len() == 0 {
        s
    } else {
        remove_all(without(s, fragments.drop_last()), fragments.last())
    }
}

/// A log without the escape sequences that colour a terminal's output.
pub open spec fn without_colors(log: Seq<char>) -> Seq<char> {
    without(log, color_codes())
}

/// A log without the escape sequences that colour a terminal's output.
pub fn strip_colors(log: &str) -> (r: String)
    ensures
        r@ == without_colors(log@),
{
    let codes: Vec<Vec<char>> = vec![
        vec![ESCAPE, '[', '0', 'm'],
        vec![ESCAPE, '[', '1', 'm'],
        vec![ESCAPE, '[', '2', 'm'],
        vec![ESCAPE, '[', '3', '1', 'm'],
        vec![ESCAPE, '[', '3', '2', 'm'],
        vec![ESCAPE, '[', '3', '3', 'm'],
    ];
    assert(views(codes@) =~= color_codes());
    let mut text = chars_of(log);
    let mut i: usize = 0;
    assert(views(codes@).take(0) =~= Seq::empty());
    while i < codes.len()
        invariant
            i <= codes.len(),
            text@ == without(log@, views(codes@).take(i as int)),
        decreases codes.len() - i,
    {
        proof {
            let all = views(codes@);
            assert(all.take(i + 1).drop_last() =~= all.take(i as int));
            assert(all.take(i + 1).last() == codes@[i as int]@);
        }
        text = remove_all_in(&text, &codes[i]);
        i += 1;
    }
    assert(views(codes@).take(i as int) =~= views(codes@));
    string_from(&text)
}

impl Run {
    /// A run without results.
    pub fn new(date: String, commit: String) -> (run: Run)
        ensures
            run.date == date,
            run.commit == commit,
            run.results@ == Map::<Key, Outcome>::empty(),
            run.screenshots@ == Map::<Key, Kept>::empty(),
            run.logs@ == Map::<Key, Seq<char>>::empty(),
    {
        Run { date, commit, results: Table::new(), screenshots: Table::new(), logs: Table::new() }
    }

    /// Records a list of examples that had one outcome on one platform. Each
    /// line names one example; a line that names none fails the list, and
    /// then nothing is recorded.
    pub fn record_listing(
        &mut self,
        registry: &mut Table<bool>,
        platform: &Platform,
        outcome: Outcome,
        text: &str,
    ) -> (r: Result<(), Error>)
        ensures
            final(self).date == old(self).date,
            final(self).commit == old(self).commit,
            final(self).screenshots == old(self).screenshots,
            final(self).logs == old(self).logs,
            match r {
                Ok(()) => {
                    &&& lines_name_examples(lines(text@))
                    &&& final(registry)@ == registry_after_listing(
                        old(registry)@,
                        outcome,
                        examples_of(lines(text@)),
                    )
                    &&& final(self).results@ == results_after_listing(
                        old(self).results@,
                        platform.label(),
                        outcome,
                        examples_of(lines(text@)),
                    )
                },
                Err(e) => {
                    &&& e == Error::MalformedLine
                    &&& !lines_name_examples(lines(text@))
                    &&& *final(registry) == *old(registry)
                    &&& final(self).results == old(self).results
                },
            },
    {
        let names = match parse_listing(text) {
            Ok(names) => names,
            Err(e) => {
                return Err(e);
            },
        };
        let ghost examples = examples_of(lines(text@));
        let evidence = outcome == Outcome::Failures;
        let mut i: usize = 0;
        assert(examples.take(0) =~= Seq::empty());
        while i < names.len()
            invariant
                i <= names.len(),
                name_keys(names@) == examples,
                evidence == (outcome == Outcome::Failures),
                self.date == old(self).date,
                self.commit == old(self).commit,
                self.screenshots == old(self).screenshots,
                self.logs == old(self).logs,
                registry@ == registry_after_listing(
                    old(registry)@,
                    outcome,
                    examples.take(i as int),
                ),
                self.results@ == results_after_listing(
                    old(self).results@,
                    platform.label(),
                    outcome,
                    examples.take(i as int),
                ),
            decreases names.len() - i,
        {
            proof {
                assert(examples.take(i + 1).drop_last() =~= examples.take(i as int));
                assert(examples.take(i + 1).last() == examples[i as int]);
                assert(name_keys(names@)[i as int] == (
                    names@[i as int].category@,
                    names@[i as int].name@,
                ));
            }
            let example = &names[i];
            note(registry, example.category.as_str(), example.name.as_str(), evidence);
            self.results.insert(example.name.clone(), platform.to_string(), outcome);
            i += 1;
        }
        assert(examples.take(i as int) =~= examples);
        Ok(())
    }

    /// Records the screenshots that a provider resolved for one platform,
    /// in their order. Off the mobile platform each must name its example as
    /// `<category>/<name>`; one that does not fails them all, and then nothing
    /// is recorded.
    pub fn record_screenshots(
        &mut self,
        registry: &mut Table<bool>,
        tags: &mut NameSet,
        platform: &Platform,
        provider: Provider,
        shots: &Vec<ScreenshotData>,
    ) -> (r: Result<(), Error>)
        ensures
            final(self).date == old(self).date,
            final(self).commit == old(self).commit,
            final(self).logs == old(self).logs,
            match r {
                Ok(()) => {
                    &&& shots_name_examples(*platform, screenshot_views(shots@))
                    &&& final(registry)@ == registry_after_shots(
                        old(registry)@,
                        *platform,
                        screenshot_views(shots@),
                    )
                    &&& final(tags)@ == tags_after_shots(
                        old(tags)@,
                        *platform,
                        screenshot_views(shots@),
                    )
                    &&& final(self).results@ == results_after_shots(
                        old(self).results@,
                        *platform,
                        screenshot_views(shots@),
                    )
                    &&& final(self).screenshots@ == screenshots_after_shots(
                        old(self).screenshots@,
                        *platform,
                        provider,
                        screenshot_views(shots@),
                    )
                },
                Err(e) => {
                    &&& e == Error::MalformedExample
                    &&& !shots_name_examples(*platform, screenshot_views(shots@))
                    &&& *final(registry) == *old(registry)
                    &&& *final(tags) == *old(tags)
                    &&& final(self).results == old(self).results
                    &&& final(self).screenshots == old(self).screenshots
                },
            },
    {
        let names = match parse_shot_examples(platform, shots) {
            Ok(names) => names,
            Err(e) => {
                return Err(e);
            },
        };
        let ghost all = screenshot_views(shots@);
        let mut i: usize = 0;
        assert(all.take(0) =~= Seq::empty());
        assert(name_keys(names@).len() == names.len());
        assert(shot_examples(*platform, all).len() == shots.len());
        while i < shots.len()
            invariant
                i <= shots.len(),
                names.len() == shots.len(),
                all == screenshot_views(shots@),
                name_keys(names@) == shot_examples(*platform, all),
                self.date == old(self).date,
                self.commit == old(self).commit,
                self.logs == old(self).logs,
                registry@ == registry_after_shots(old(registry)@, *platform, all.take(i as int)),
                tags@ == tags_after_shots(old(tags)@, *platform, all.take(i as int)),
                self.results@ == results_after_shots(
                    old(self).results@,
                    *platform,
                    all.take(i as int),
                ),
                self.screenshots@ == screenshots_after_shots(
                    old(self).screenshots@,
                    *platform,
                    provider,
                    all.take(i as int),
                ),
            decreases shots.len() - i,
        {
            proof {
                assert(all.take(i + 1).drop_last() =~= all.take(i as int));
                assert(all.take(i + 1).last() == all[i as int]);
                assert(all[i as int] == shots@[i as int]@);
                assert(name_keys(names@)[i as int] == (
                    names@[i as int].category@,
                    names@[i as int].name@,
                ));
                assert(shot_examples(*platform, all)[i as int] == shot_example(
                    *platform,
                    all[i as int],
                ).unwrap());
            }
            let shot = &shots[i];
            let example = &names[i];
            note(
                registry,
                example.category.as_str(),
                example.name.as_str(),
                shot.changed == ScreenshotState::Changed,
            );
            let column = match &shot.tag {
                Some(tag) => {
                    if platform.is_mobile() {
                        tags.insert(tag.clone());
                    }
                    tag.clone()
                },
                None => platform.to_string(),
            };
            if !self.results.contains(example.name.as_str(), column.as_str()) {
                self.results.insert(example.name.clone(), column.clone(), Outcome::Successes);
            }
            let taken = provider == Provider::PixelEagle && self.screenshots.contains(
                example.name.as_str(),
                column.as_str(),
            );
            if !taken {
                let state = if shot.diff_ratio.is_zero() {
                    ScreenshotState::Similar
                } else {
                    shot.changed
                };
                self.screenshots.insert(
                    example.name.clone(),
                    column,
                    Screenshot {
                        image: ImageUrl(shot.screenshot.0.clone()),
                        state,
                        viewer: SnapshotViewerUrl(shot.snapshot_url.0.clone()),
                    },
                );
            }
            i += 1;
        }
        assert(all.take(i as int) =~= all);
        Ok(())
    }

    /// Lays one file of a platform's rerun over the run. The list of the
    /// examples that passed gives each of them the outcome `NoScreenshots` on
    /// that platform, in place of what it had; a line of it that names no
    /// example fails the list, and then nothing is recorded. A log is kept,
    /// without its colours, under the example's name and the platform. Any
    /// other file changes nothing. Screenshots are never touched.
    pub fn record_rerun(&mut self, platform: &Platform, file_name: &str, text: &str) -> (r: Result<
        (),
        Error,
    >)
        ensures
            final(self).date == old(self).date,
            final(self).commit == old(self).commit,
            final(self).screenshots == old(self).screenshots,
            match rerun_role(file_name@) {
                RerunRoleView::Successes => {
                    &&& final(self).logs == old(self).logs
                    &&& match r {
                        Ok(()) => {
                            &&& lines_name_examples(lines(text@))
                            &&& final(self).results@ == results_after_listing(
                                old(self).results@,
                                platform.label(),
                                Outcome::NoScreenshots,
                                examples_of(lines(text@)),
                            )
                        },
                        Err(e) => {
                            &&& e == Error::MalformedLine
                            &&& !lines_name_examples(lines(text@))
                            &&& final(self).results == old(self).results
                        },
                    }
                },
                RerunRoleView::Log(example) => {
                    &&& r is Ok
                    &&& final(self).results == old(self).results
                    &&& final(self).logs@ == old(self).logs@.insert(
                        (example, platform.label()),
                        without_colors(text@),
                    )
                },
                RerunRoleView::Other => {
                    &&& r is Ok
                    &&& final(self).results == old(self).results
                    &&& final(self).logs == old(self).logs
                },
            },
    {
        match rerun_file_role(file_name) {
            RerunRole::Successes => {
                let names = match parse_listing(text) {
                    Ok(names) => names,
                    Err(e) => {
                        return Err(e);
                    },
                };
                let ghost examples = examples_of(lines(text@));
                let mut i: usize = 0;
                assert(examples.take(0) =~= Seq::empty());
                while i < names.len()
                    invariant
                        i <= names.len(),
                        name_keys(names@) == examples,
                        self.date == old(self).date,
                        self.commit == old(self).commit,
                        self.screenshots == old(self).screenshots,
                        self.logs == old(self).logs,
                        self.results@ == results_after_listing(
                            old(self).results@,
                            platform.label(),
                            Outcome::NoScreenshots,
                            examples.take(i as int),
                        ),
                    decreases names.len() - i,
                {
                    proof {
                        assert(examples.take(i + 1).drop_last() =~= examples.take(i as int));
                        assert(examples.take(i + 1).last() == examples[i as int]);
                        assert(name_keys(names@)[i as int] == (
                            names@[i as int].category@,
                            names@[i as int].name@,
                        ));
                    }
                    self.results.insert(
                        names[i].name.clone(),
                        platform.to_string(),
                        Outcome::NoScreenshots,
                    );
                    i += 1;
                }
                assert(examples.take(i as int) =~= examples);
                Ok(())
            },
            RerunRole::Log(example) => {
                self.logs.insert(example, platform.to_string(), strip_colors(text));
                Ok(())
            },
            RerunRole::Other => Ok(()),
        }
    }
}


/// A screenshot with a ratio of zero is kept as similar, whatever the provider
/// said of it.
pub proof fn lemma_zero_ratio_is_similar(shot: ScreenshotView)
    requires
        shot.diff_ratio.is_zero(),
    ensures
        kept(shot).state == ScreenshotState::Similar,
{
}

/// What a run holds under a key after the screenshots of an artifact is what
/// it held before or what is kept of one of them: never a screenshot as the
/// provider gave it.
pub proof fn lemma_screenshots_are_kept(
    screenshots: Map<Key, Kept>,
    platform: Platform,
    provider: Provider,
    shots: Seq<ScreenshotView>,
    key: Key,
)
    requires
        screenshots_after_shots(screenshots, platform, provider, shots).contains_key(key),
    ensures
        ({
            let after = screenshots_after_shots(screenshots, platform, provider, shots);
            ||| screenshots.contains_key(key) && after[key] == screenshots[key]
            ||| exists|i: int|
                0 <= i < shots.len() && shot_key(platform, #[trigger] shots[i]) == key
                    && after[key] == kept(shots[i])
        }),
    decreases shots.len(),
{
    if shots.len() > 0 {
        let front = shots.drop_last();
        let before = screenshots_after_shots(screenshots, platform, provider, front);
        let after = screenshots_after_shots(screenshots, platform, provider, shots);
        if before.contains_key(key) && after[key] == before[key] {
            lemma_screenshots_are_kept(screenshots, platform, provider, front, key);
            if !(screenshots.contains_key(key) && after[key] == screenshots[key]) {
                let i = choose|i: int|
                    0 <= i < front.len() && shot_key(platform, #[trigger] front[i]) == key
                        && before[key] == kept(front[i]);
                assert(shots[i] == front[i]);
            }
        } else {
            assert(shot_key(platform, shots[shots.len() - 1]) == key);
        }
    }
}

/// The screenshots of `PixelEagle` leave what a run holds under a key as it
/// is.
pub proof fn lemma_pixeleagle_yields(
    screenshots: Map<Key, Kept>,
    platform: Platform,
    shots: Seq<ScreenshotView>,
    key: Key,
)
    requires
        screenshots.contains_key(key),
    ensures
        screenshots_after_shots(screenshots, platform, Provider::PixelEagle, shots).contains_key(
            key,
        ),
        screenshots_after_shots(screenshots, platform, Provider::PixelEagle, shots)[key]
            == screenshots[key],
    decreases shots.len(),
{
    if shots.len() > 0 {
        lemma_pixeleagle_yields(screenshots, platform, shots.drop_last(), key);
    }
}

/// After the screenshots of `Percy`, a run holds under the key of each what is
/// kept of the last of them with that key, whatever it held before.
pub proof fn lemma_percy_prevails(
    screenshots: Map<Key, Kept>,
    platform: Platform,
    shots: Seq<ScreenshotView>,
    i: int,
)
    requires
        0 <= i < shots.len(),
        forall|j: int|
            i < j < shots.len() ==> shot_key(platform, #[trigger] shots[j]) != shot_key(
                platform,
                shots[i],
            ),
    ensures
        screenshots_after_shots(screenshots, platform, Provider::Percy, shots).contains_key(
            shot_key(platform, shots[i]),
        ),
        screenshots_after_shots(screenshots, platform, Provider::Percy, shots)[shot_key(
            platform,
            shots[i],
        )] == kept(shots[i]),
    decreases shots.len(),
{
    if i < shots.len() - 1 {
        let front = shots.drop_last();
        assert forall|j: int| i < j < front.len() implies shot_key(platform, #[trigger] front[j])
            != shot_key(platform, front[i]) by {
            assert(front[j] == shots[j]);
        }
        lemma_percy_prevails(screenshots, platform, front, i);
        assert(shot_key(platform, shots[shots.len() - 1]) != shot_key(platform, shots[i]));
    }
}

/// Where both providers have a screenshot for one key in one run, the one of
/// `Percy` is kept and the one of `PixelEagle` is not, whichever of the two
/// artifacts is recorded first.
pub proof fn lemma_percy_over_pixeleagle(
    screenshots: Map<Key, Kept>,
    platform: Platform,
    percy: Seq<ScreenshotView>,
    pixeleagle: Seq<ScreenshotView>,
    i: int,
)
    requires
        0 <= i < percy.len(),
        forall|j: int|
            i < j < percy.len() ==> shot_key(platform, #[trigger] percy[j]) != shot_key(
                platform,
                percy[i],
            ),
    ensures
        screenshots_after_shots(
            screenshots_after_shots(screenshots, platform, Provider::Percy, percy),
            platform,
            Provider::PixelEagle,
            pixeleagle,
        )[shot_key(platform, percy[i])] == kept(percy[i]),
        screenshots_after_shots(
            screenshots_after_shots(screenshots, platform, Provider::PixelEagle, pixeleagle),
            platform,
            Provider::Percy,
            percy,
        )[shot_key(platform, percy[i])] == kept(percy[i]),
{
    let key = shot_key(platform, percy[i]);
    lemma_percy_prevails(screenshots, platform, percy, i);
    lemma_pixeleagle_yields(
        screenshots_after_shots(screenshots, platform, Provider::Percy, percy),
        platform,
        pixeleagle,
        key,
    );
    lemma_percy_prevails(
        screenshots_after_shots(screenshots, platform, Provider::PixelEagle, pixeleagle),
        platform,
        percy,
        i,
    );
}

/// A rerun's list of the examples that passed gives each of them the outcome
/// `NoScreenshots` on its platform, whatever it had there.
pub proof fn lemma_listing_overwrites(
    results: Map<Key, Outcome>,
    platform: Seq<char>,
    outcome: Outcome,
    examples: Seq<Key>,
    i: int,
)
    requires
        0 <= i < examples.len(),
    ensures
        results_after_listing(results, platform, outcome, examples).contains_key(
            (examples[i].1, platform),
        ),
        results_after_listing(results, platform, outcome, examples)[(examples[i].1, platform)]
            == outcome,
    decreases examples.len(),
{
    if i < examples.len() - 1 {
        lemma_listing_overwrites(results, platform, outcome, examples.drop_last(), i);
    }
}


/// After a list of examples the registry holds what it held and the examples
/// of the list; flaky are those that were so and, where the list is one of
/// failures, those of the list.
pub proof fn lemma_registry_after_listing(
    registry: Map<Key, bool>,
    outcome: Outcome,
    examples: Seq<Key>,
    example: Key,
)
    ensures
        registry_after_listing(registry, outcome, examples).contains_key(example)
            <==> registry.contains_key(example) || examples.contains(example),
        is_flagged(registry_after_listing(registry, outcome, examples), example) <==> is_flagged(
            registry,
            example,
        ) || (outcome == Outcome::Failures && examples.contains(example)),
    decreases examples.len(),
{
    if examples.len() > 0 {
        let front = examples.drop_last();
        lemma_registry_after_listing(registry, outcome, front, example);
        if front.contains(example) {
            let i = choose|i: int| 0 <= i < front.len() && front[i] == example;
            assert(examples[i] == example);
        }
        if examples.contains(example) && examples.last() != example {
            let i = choose|i: int| 0 <= i < examples.len() && examples[i] == example;
            assert(front[i] == example);
        }
        assert(examples[examples.len() - 1] == examples.last());
    }
}

/// After a list of examples on a platform the results hold the outcome of the
/// list for each of its examples on that platform, and beside these what they
/// held.
pub proof fn lemma_results_after_listing(
    results: Map<Key, Outcome>,
    platform: Seq<char>,
    outcome: Outcome,
    examples: Seq<Key>,
    key: Key,
)
    ensures
        ({
            let after = results_after_listing(results, platform, outcome, examples);
            let listed = exists|i: int|
                0 <= i < examples.len() && key == ((#[trigger] examples[i]).1, platform);
            &&& after.contains_key(key) <==> results.contains_key(key) || listed
            &&& listed ==> after[key] == outcome
            &&& !listed && results.contains_key(key) ==> after[key] == results[key]
        }),
    decreases examples.len(),
{
    if examples.len() > 0 {
        let front = examples.drop_last();
        lemma_results_after_listing(results, platform, outcome, front, key);
        let listed = exists|i: int|
            0 <= i < examples.len() && key == ((#[trigger] examples[i]).1, platform);
        let listed_before = exists|i: int|
            0 <= i < front.len() && key == ((#[trigger] front[i]).1, platform);
        if listed_before {
            let i = choose|i: int|
                0 <= i < front.len() && key == ((#[trigger] front[i]).1, platform);
            assert(key == (examples[i].1, platform));
        }
        if key == (examples.last().1, platform) {
            assert(key == (examples[examples.len() - 1].1, platform));
        }
        if listed && key != (examples.last().1, platform) {
            let i = choose|i: int|
                0 <= i < examples.len() && key == ((#[trigger] examples[i]).1, platform);
            assert(key == (front[i].1, platform));
        }
    }
}

/// After screenshots the registry holds what it held and the examples of the
/// screenshots; flaky are those that were so and those of which the provider
/// calls a screenshot changed.
pub proof fn lemma_registry_after_shots(
    registry: Map<Key, bool>,
    platform: Platform,
    shots: Seq<ScreenshotView>,
    example: Key,
)
    ensures
        ({
            let after = registry_after_shots(registry, platform, shots);
            &&& after.contains_key(example) <==> registry.contains_key(example) || exists|i: int|
                0 <= i < shots.len() && shot_example(platform, #[trigger] shots[i]).unwrap()
                    == example
            &&& is_flagged(after, example) <==> is_flagged(registry, example) || exists|i: int|
                0 <= i < shots.len() && shot_example(platform, #[trigger] shots[i]).unwrap()
                    == example && shots[i].changed == ScreenshotState::Changed
        }),
    decreases shots.len(),
{
    if shots.len() > 0 {
        let front = shots.drop_last();
        let last = shots[shots.len() - 1];
        assert(last == shots.last());
        lemma_registry_after_shots(registry, platform, front, example);
        if exists|i: int|
            0 <= i < front.len() && shot_example(platform, #[trigger] front[i]).unwrap()
                == example {
            let i = choose|i: int|
                0 <= i < front.len() && shot_example(platform, #[trigger] front[i]).unwrap()
                    == example;
            assert(shots[i] == front[i]);
        }
        if exists|i: int|
            0 <= i < front.len() && shot_example(platform, #[trigger] front[i]).unwrap()
                == example && front[i].changed == ScreenshotState::Changed {
            let i = choose|i: int|
                0 <= i < front.len() && shot_example(platform, #[trigger] front[i]).unwrap()
                    == example && front[i].changed == ScreenshotState::Changed;
            assert(shots[i] == front[i]);
        }
        if exists|i: int|
            0 <= i < shots.len() && shot_example(platform, #[trigger] shots[i]).unwrap()
                == example {
            let i = choose|i: int|
                0 <= i < shots.len() && shot_example(platform, #[trigger] shots[i]).unwrap()
                    == example;
            if i < front.len() {
                assert(shots[i] == front[i]);
            }
        }
        if exists|i: int|
            0 <= i < shots.len() && shot_example(platform, #[trigger] shots[i]).unwrap()
                == example && shots[i].changed == ScreenshotState::Changed {
            let i = choose|i: int|
                0 <= i < shots.len() && shot_example(platform, #[trigger] shots[i]).unwrap()
                    == example && shots[i].changed == ScreenshotState::Changed;
            if i < front.len() {
                assert(shots[i] == front[i]);
            }
        }
    }
}

/// After screenshots the set of mobile tags holds what it held and, where the
/// platform is the mobile one, the tags of the screenshots.
pub proof fn lemma_tags_after_shots(
    tags: Set<Seq<char>>,
    platform: Platform,
    shots: Seq<ScreenshotView>,
    tag: Seq<char>,
)
    ensures
        tags_after_shots(tags, platform, shots).contains(tag) <==> tags.contains(tag) || (
        platform is Mobile && exists|i: int|
            0 <= i < shots.len() && (#[trigger] shots[i]).tag == Some(tag)),
    decreases shots.len(),
{
    if shots.len() > 0 {
        let front = shots.drop_last();
        let last = shots[shots.len() - 1];
        assert(last == shots.last());
        lemma_tags_after_shots(tags, platform, front, tag);
        if exists|i: int| 0 <= i < front.len() && (#[trigger] front[i]).tag == Some(tag) {
            let i = choose|i: int| 0 <= i < front.len() && (#[trigger] front[i]).tag == Some(tag);
            assert(shots[i] == front[i]);
        }
        if exists|i: int| 0 <= i < shots.len() && (#[trigger] shots[i]).tag == Some(tag) {
            let i = choose|i: int| 0 <= i < shots.len() && (#[trigger] shots[i]).tag == Some(tag);
            if i < front.len() {
                assert(shots[i] == front[i]);
            }
        }
    }
}

/// After screenshots the results hold what they held, and a success under the
/// key of each screenshot under which they held nothing.
pub proof fn lemma_results_after_shots(
    results: Map<Key, Outcome>,
    platform: Platform,
    shots: Seq<ScreenshotView>,
    key: Key,
)
    ensures
        ({
            let after = results_after_shots(results, platform, shots);
            let shown = exists|i: int|
                0 <= i < shots.len() && shot_key(platform, #[trigger] shots[i]) == key;
            &&& after.contains_key(key) <==> results.contains_key(key) || shown
            &&& results.contains_key(key) ==> after[key] == results[key]
            &&& !results.contains_key(key) && shown ==> after[key] == Outcome::Successes
        }),
    decreases shots.len(),
{
    if shots.len() > 0 {
        let front = shots.drop_last();
        let last = shots[shots.len() - 1];
        assert(last == shots.last());
        lemma_results_after_shots(results, platform, front, key);
        if exists|i: int| 0 <= i < front.len() && shot_key(platform, #[trigger] front[i]) == key {
            let i = choose|i: int|
                0 <= i < front.len() && shot_key(platform, #[trigger] front[i]) == key;
            assert(shots[i] == front[i]);
        }
        if exists|i: int| 0 <= i < shots.len() && shot_key(platform, #[trigger] shots[i]) == key {
            let i = choose|i: int|
                0 <= i < shots.len() && shot_key(platform, #[trigger] shots[i]) == key;
            if i < front.len() {
                assert(shots[i] == front[i]);
            }
        }
    }
}

/// After screenshots a run holds a screenshot under the keys under which it
/// held one, and under the key of each of the screenshots.
pub proof fn lemma_screenshots_after_shots(
    screenshots: Map<Key, Kept>,
    platform: Platform,
    provider: Provider,
    shots: Seq<ScreenshotView>,
    key: Key,
)
    ensures
        screenshots_after_shots(screenshots, platform, provider, shots).contains_key(key)
            <==> screenshots.contains_key(key) || exists|i: int|
            0 <= i < shots.len() && shot_key(platform, #[trigger] shots[i]) == key,
    decreases shots.len(),
{
    if shots.len() > 0 {
        let front = shots.drop_last();
        let last = shots[shots.len() - 1];
        assert(last == shots.last());
        lemma_screenshots_after_shots(screenshots, platform, provider, front, key);
        if exists|i: int| 0 <= i < front.len() && shot_key(platform, #[trigger] front[i]) == key {
            let i = choose|i: int|
                0 <= i < front.len() && shot_key(platform, #[trigger] front[i]) == key;
            assert(shots[i] == front[i]);
        }
        if exists|i: int| 0 <= i < shots.len() && shot_key(platform, #[trigger] shots[i]) == key {
            let i = choose|i: int|
                0 <= i < shots.len() && shot_key(platform, #[trigger] shots[i]) == key;
            if i < front.len() {
                assert(shots[i] == front[i]);
            }
        }
    }
}

/// Where a run held nothing under a key, it holds after the screenshots of
/// `PixelEagle` what is kept of the first of them with that key.
pub proof fn lemma_pixeleagle_first(
    screenshots: Map<Key, Kept>,
    platform: Platform,
    shots: Seq<ScreenshotView>,
    i: int,
)
    requires
        0 <= i < shots.len(),
        !screenshots.contains_key(shot_key(platform, shots[i])),
        forall|j: int|
            0 <= j < i ==> shot_key(platform, #[trigger] shots[j]) != shot_key(
                platform,
                shots[i],
            ),
    ensures
        screenshots_after_shots(screenshots, platform, Provider::PixelEagle, shots)[shot_key(
            platform,
            shots[i],
        )] == kept(shots[i]),
    decreases shots.len(),
{
    let key = shot_key(platform, shots[i]);
    let front = shots.drop_last();
    if i < shots.len() - 1 {
        assert forall|j: int| 0 <= j < i implies shot_key(platform, #[trigger] front[j])
            != shot_key(platform, front[i]) by {
            assert(front[j] == shots[j]);
        }
        lemma_pixeleagle_first(screenshots, platform, front, i);
        lemma_screenshots_after_shots(screenshots, platform, Provider::PixelEagle, front, key);
        assert(shot_key(platform, front[i]) == key);
    } else {
        lemma_screenshots_after_shots(screenshots, platform, Provider::PixelEagle, front, key);
        if exists|j: int| 0 <= j < front.len() && shot_key(platform, #[trigger] front[j]) == key {
            let j = choose|j: int|
                0 <= j < front.len() && shot_key(platform, #[trigger] front[j]) == key;
            assert(shots[j] == front[j]);
        }
    }
}

} // verus!
