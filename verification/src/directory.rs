//! The names of the directories that hold runs and reruns: which runs are
//! read, in what order, and what the name of each says.

use crate::model::{Error, Platform};
use crate::parse::{hyphen, hyphen_pattern};
use crate::scan::{with_run, Artifact, RerunFile, Scan};
use crate::text::{
    chars_of, first_segment, first_segment_in, lex_less, place_of, split_once, split_once_in,
    string_from, texts, views, Place,
};
use chrono::NaiveDateTime;
use vstd::prelude::*;
use vstd::string::StringExecFns;

verus! {

/// The date `YYYY-MM-DD HH:MM` that a stamp `YYYYMMDDHHMM` stands for, where
/// it stands for one.
pub uninterp spec fn formatted_date(stamp: Seq<char>) -> Option<Seq<char>>;

/// Reads a stamp with `chrono::NaiveDateTime::parse_from_str` and the format
/// `%Y%m%d%H%M`, and writes what was read with `NaiveDateTime::format` and the
/// format `%Y-%m-%d %H:%M`, which asks only for what a date and time have, so
/// that the writing does not fail. Neither looks at anything but its
/// arguments: the contract claims that the outcome depends on the stamp alone,
/// and no more.
#[verifier::external_body]
fn format_date(stamp: &str) -> (r: Option<String>)
    ensures
        match r {
            Some(date) => formatted_date(stamp@) == Some(date@),
            None => formatted_date(stamp@) is None,
        },
{
    match NaiveDateTime::parse_from_str(stamp, "%Y%m%d%H%M") {
        Ok(time) => Some(time.format("%Y-%m-%d %H:%M").to_string()),
        Err(_) => None,
    }
}

/// What the name of a run's directory says.
#[derive(Debug)]
pub struct RunName {
    pub date: String,
    pub commit: String,
}

/// The stamp in the name `<stamp>-<commit>` of a run's directory.
pub open spec fn stamp_of(name: Seq<char>) -> Seq<char> {
    first_segment(name, hyphen())
}

/// Date and commit of a run whose directory has the given name, where `date`
/// is what the stamp in the name stands for. The date is looked at first; the
/// commit is what stands between the first `-` and the next.
pub open spec fn run_named(name: Seq<char>, date: Option<Seq<char>>) -> Result<
    (Seq<char>, Seq<char>),
    Error,
> {
    match date {
        None => Err(Error::InvalidDate),
        Some(date) => match split_once(name, hyphen()) {
            None => Err(Error::MalformedRunName),
            Some((_, rest)) => Ok((date, first_segment(rest, hyphen()))),
        },
    }
}

/// Date and commit of a run whose directory has the given name, where `date`
/// is what the stamp in the name stands for.
pub fn name_run(name: &str, date: Option<String>) -> (r: Result<RunName, Error>)
    ensures
        match run_named(
            name@,
            match date {
                Some(date) => Some(date@),
                None => None,
            },
        ) {
            Ok((date, commit)) => r matches Ok(run) && run.date@ == date && run.commit@ == commit,
            Err(e) => r matches Err(x) && x == e,
        },
{
    let Some(date) = date else {
        return Err(Error::InvalidDate);
    };
    let hyphen = hyphen_pattern();
    match split_once_in(&chars_of(name), &hyphen) {
        None => Err(Error::MalformedRunName),
        Some((_, rest)) => Ok(
            RunName { date, commit: string_from(&first_segment_in(&rest, &hyphen)) },
        ),
    }
}

/// Reads the name `<stamp>-<commit>` of a run's directory.
pub fn parse_run_name(name: &str) -> (r: Result<RunName, Error>)
    ensures
        match run_named(name@, formatted_date(stamp_of(name@))) {
            Ok((date, commit)) => r matches Ok(run) && run.date@ == date && run.commit@ == commit,
            Err(e) => r matches Err(x) && x == e,
        },
{
    let stamp = string_from(&first_segment_in(&chars_of(name), &hyphen_pattern()));
    name_run(name, format_date(stamp.as_str()))
}

impl Scan {
    /// Adds the run of a directory: the directory's name gives date and
    /// commit, `artifacts` and `reruns` are what was read of its files.
    pub fn read_run(
        self,
        directory: &str,
        artifacts: &Vec<Artifact>,
        reruns: &Vec<RerunFile>,
    ) -> (r: Result<Scan, Error>)
        ensures
            match run_named(directory@, formatted_date(stamp_of(directory@))) {
                Ok((date, commit)) => match with_run(self@, date, commit, artifacts@, reruns@) {
                    Ok(after) => r matches Ok(scan) && scan@ == after,
                    Err(e) => r matches Err(x) && x == e,
                },
                Err(e) => r matches Err(x) && x == e,
            },
    {
        match parse_run_name(directory) {
            Ok(run) => self.add_run(run.date, run.commit, artifacts, reruns),
            Err(e) => Err(e),
        }
    }
}

/// The platforms that can have a rerun, in the order in which reruns are
/// laid over a run.
pub fn rerun_platforms() -> (platforms: Vec<Platform>)
    ensures
        platforms@ == seq![Platform::Linux, Platform::Windows, Platform::Macos],
{
    vec![Platform::Linux, Platform::Windows, Platform::Macos]
}

/// The name of the directory, inside a run's, that holds the rerun of a
/// platform.
pub fn rerun_directory(platform: &Platform) -> (name: String)
    ensures
        name@ == "status-rerun-"@ + platform.label(),
{
    let mut name = "status-rerun-".to_owned();
    name.append(platform.to_string().as_str());
    name
}

/// How many directories are looked at, counted from the newest.
pub const WINDOW: usize = 15;

/// Whether a directory is hidden: its name begins with `.`.
pub open spec fn is_hidden(name: Seq<char>) -> bool {
    name.len() > 0 && name[0] == '.'
}

/// A sequence of names, newest first, with one more name at its place: in
/// front of the first name that stands before it in the lexicographic order.
pub open spec fn put_in(sorted: Seq<Seq<char>>, name: Seq<char>) -> Seq<Seq<char>>
    decreases sorted.len(),
{
    if sorted.len() == 0 {
        seq![name]
    } else if lex_less(sorted[0], name) {
        seq![name] + sorted
    } else {
        seq![sorted[0]] + put_in(sorted.drop_first(), name)
    }
}

/// The names newest first: in falling lexicographic order, which for names
/// that begin with a stamp is the order of their dates.
pub open spec fn newest_first(names: Seq<Seq<char>>) -> Seq<Seq<char>>
    decreases names.len(),
{
    if names.len() == 0 {
        Seq::empty()
    } else {
        put_in(newest_first(names.drop_last()), names.last())
    }
}

/// The names that are not hidden, in their order.
pub open spec fn visible(names: Seq<Seq<char>>) -> Seq<Seq<char>>
    decreases names.len(),
{
    if names.len() == 0 {
        Seq::empty()
    } else if is_hidden(names.last()) {
        visible(names.drop_last())
    } else {
        visible(names.drop_last()).push(names.last())
    }
}

/// The first `n` of a sequence of names, or all where there are fewer.
pub open spec fn first_of(names: Seq<Seq<char>>, n: int) -> Seq<Seq<char>> {
    if names.len() <= n {
        names
    } else {
        names.take(n)
    }
}

/// The directories whose runs are read, in the order in which they are read:
/// of all directories the newest `WINDOW`, newest first, without the hidden
/// ones among them.
pub open spec fn runs_to_read(names: Seq<Seq<char>>) -> Seq<Seq<char>> {
    visible(first_of(newest_first(names), WINDOW as int))
}

/// Whether no name of a sequence stands before one in front of it.
pub open spec fn falls(names: Seq<Seq<char>>) -> bool {
    forall|i: int, j: int|
        0 <= i < j < names.len() ==> !lex_less(#[trigger] names[i], #[trigger] names[j])
}

/// Where a name goes into a sequence, it goes in front of the first name that
/// stands before it.
pub proof fn lemma_put_in_at(sorted: Seq<Seq<char>>, name: Seq<char>, p: int)
    requires
        0 <= p <= sorted.len(),
        forall|i: int| 0 <= i < p ==> !lex_less(#[trigger] sorted[i], name),
        p < sorted.len() ==> lex_less(sorted[p], name),
    ensures
        put_in(sorted, name) == sorted.insert(p, name),
    decreases sorted.len(),
{
    if sorted.len() == 0 {
        assert(sorted.insert(p, name) =~= seq![name]);
    } else if p == 0 {
        assert(sorted.insert(p, name) =~= seq![name] + sorted);
    } else {
        let rest = sorted.drop_first();
        assert forall|i: int| 0 <= i < p - 1 implies !lex_less(#[trigger] rest[i], name) by {
            assert(rest[i] == sorted[i + 1]);
        }
        lemma_put_in_at(rest, name, p - 1);
        assert(sorted.insert(p, name) =~= seq![sorted[0]] + rest.insert(p - 1, name));
    }
}

/// With one more name put in, a falling sequence still falls, and holds what
/// it held and that name.
pub proof fn lemma_put_in(sorted: Seq<Seq<char>>, name: Seq<char>)
    requires
        falls(sorted),
    ensures
        falls(put_in(sorted, name)),
        put_in(sorted, name).to_multiset() == sorted.to_multiset().insert(name),
    decreases sorted.len(),
{
    broadcast use vstd::seq_lib::group_to_multiset_ensures;

    if sorted.len() == 0 {
        assert(seq![name] =~= Seq::<Seq<char>>::empty().push(name));
        assert(sorted =~= Seq::empty());
    } else if lex_less(sorted[0], name) {
        let next = seq![name] + sorted;
        assert forall|i: int, j: int| 0 <= i < j < next.len() implies !lex_less(
            #[trigger] next[i],
            #[trigger] next[j],
        ) by {
            if i == 0 {
                assert(next[j] == sorted[j - 1]);
                if lex_less(name, next[j]) {
                    crate::text::lemma_lex_less_transitive(sorted[0], name, sorted[j - 1]);
                    crate::text::lemma_lex_less_irreflexive(sorted[0]);
                }
            } else {
                assert(next[i] == sorted[i - 1] && next[j] == sorted[j - 1]);
            }
        }
        assert(next =~= sorted.insert(0, name));
        vstd::seq_lib::to_multiset_insert(sorted, 0, name);
    } else {
        let rest = sorted.drop_first();
        assert(falls(rest)) by {
            assert forall|i: int, j: int| 0 <= i < j < rest.len() implies !lex_less(
                #[trigger] rest[i],
                #[trigger] rest[j],
            ) by {
                assert(rest[i] == sorted[i + 1] && rest[j] == sorted[j + 1]);
            }
        }
        lemma_put_in(rest, name);
        let tail = put_in(rest, name);
        let next = seq![sorted[0]] + tail;
        assert forall|i: int, j: int| 0 <= i < j < next.len() implies !lex_less(
            #[trigger] next[i],
            #[trigger] next[j],
        ) by {
            if i == 0 {
                assert(next[j] == tail[j - 1]);
                assert(tail.to_multiset().count(tail[j - 1]) > 0);
                if tail[j - 1] != name {
                    assert(rest.to_multiset().count(tail[j - 1]) > 0);
                    let k = choose|k: int| 0 <= k < rest.len() && rest[k] == tail[j - 1];
                    assert(sorted[k + 1] == rest[k]);
                } else {
                    crate::text::lemma_lex_less_total(sorted[0], name);
                }
            } else {
                assert(next[i] == tail[i - 1] && next[j] == tail[j - 1]);
            }
        }
        assert(next =~= tail.insert(0, sorted[0]));
        vstd::seq_lib::to_multiset_insert(tail, 0, sorted[0]);
        assert(sorted =~= rest.insert(0, sorted[0]));
        vstd::seq_lib::to_multiset_insert(rest, 0, sorted[0]);
        assert(next.to_multiset() =~= sorted.to_multiset().insert(name));
    }
}

/// The names newest first fall, and are the names given, each as often as it
/// was given.
pub proof fn lemma_newest_first(names: Seq<Seq<char>>)
    ensures
        falls(newest_first(names)),
        newest_first(names).to_multiset() == names.to_multiset(),
    decreases names.len(),
{
    broadcast use vstd::seq_lib::group_to_multiset_ensures;

    if names.len() == 0 {
        assert(names =~= Seq::empty());
    } else {
        lemma_newest_first(names.drop_last());
        lemma_put_in(newest_first(names.drop_last()), names.last());
        assert(names =~= names.drop_last().push(names.last()));
    }
}

/// The directories whose runs are read, in the order in which they are read.
pub fn select_runs(names: &Vec<String>) -> (selected: Vec<String>)
    ensures
        texts(selected@) == runs_to_read(texts(names@)),
{
    let ghost all = texts(names@);
    let mut sorted: Vec<Vec<char>> = Vec::new();
    let mut i: usize = 0;
    assert(all.take(0) =~= Seq::empty());
    while i < names.len()
        invariant
            i <= names.len(),
            all == texts(names@),
            views(sorted@) == newest_first(all.take(i as int)),
        decreases names.len() - i,
    {
        let name = chars_of(names[i].as_str());
        let ghost before = views(sorted@);
        let mut p: usize = 0;
        while p < sorted.len() && !matches!(place_of(&sorted[p], &name), Place::Before)
            invariant
                p <= sorted.len(),
                forall|k: int| 0 <= k < p ==> !lex_less(#[trigger] sorted@[k]@, name@),
            decreases sorted.len() - p,
        {
            p += 1;
        }
        proof {
            assert forall|k: int| 0 <= k < p implies !lex_less(#[trigger] before[k], name@) by {
                assert(before[k] == sorted@[k]@);
            }
            if p < sorted.len() {
                assert(before[p as int] == sorted@[p as int]@);
            }
            lemma_put_in_at(before, name@, p as int);
            assert(all.take(i + 1).drop_last() =~= all.take(i as int));
            assert(all.take(i + 1).last() == name@);
            assert(views(sorted@.insert(p as int, name)) =~= before.insert(p as int, name@));
        }
        sorted.insert(p, name);
        i += 1;
    }
    assert(all.take(i as int) =~= all);
    let n: usize = if sorted.len() <= WINDOW {
        sorted.len()
    } else {
        WINDOW
    };
    let ghost window = first_of(views(sorted@), WINDOW as int);
    let mut selected: Vec<String> = Vec::new();
    let mut k: usize = 0;
    assert(window.take(0) =~= Seq::empty());
    while k < n
        invariant
            k <= n <= sorted.len(),
            window.len() == n,
            forall|j: int| 0 <= j < n ==> window[j] == (#[trigger] sorted@[j])@,
            selected@.len() == visible(window.take(k as int)).len(),
            forall|j: int|
                0 <= j < selected.len() ==> (#[trigger] selected@[j])@ == visible(
                    window.take(k as int),
                )[j],
        decreases n - k,
    {
        proof {
            assert(window.take(k + 1).drop_last() =~= window.take(k as int));
            assert(window.take(k + 1).last() == sorted@[k as int]@);
        }
        let name = &sorted[k];
        if !(name.len() > 0 && name[0] == '.') {
            selected.push(string_from(name));
        }
        k += 1;
    }
    assert(window.take(k as int) =~= window);
    assert(texts(selected@) =~= visible(window));
    selected
}

} // verus!
