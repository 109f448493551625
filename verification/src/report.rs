//! The verdict over all runs: the examples in order, each with its flag.

use crate::model::Outcome;
use crate::screenshot::ScreenshotState;
use crate::parse::slash;
use crate::run::{run_views, Run, RunView};
use crate::table::{
    distinct_keys, has_outer, lemma_rows_map_at, lemma_rows_map_dom, row_key, rows_map, Key, Row,
    Table,
};
use crate::text::{
    lemma_lex_less_irreflexive, lemma_lex_less_total, lemma_lex_less_transitive, lex_less,
    place_of, push_str, same, Place,
};
use vstd::prelude::*;

verus! {

/// The category of an example.
#[derive(Debug, Clone, PartialEq, Eq, Hash)]
pub struct ExampleCategory(pub String);

/// An example with its verdict.
#[derive(Debug, Clone)]
pub struct Example {
    pub name: String,
    pub category: ExampleCategory,
    pub flaky: bool,
}

/// Two examples are equal when they have one category and one name: the flag
/// does not count.
impl PartialEq for Example {
    fn eq(&self, other: &Self) -> (r: bool) {
        self.name == other.name && self.category.0 == other.category.0
    }
}

impl Eq for Example {

}

impl vstd::std_specs::cmp::PartialEqSpecImpl for Example {
    open spec fn obeys_eq_spec() -> bool {
        true
    }

    open spec fn eq_spec(&self, other: &Self) -> bool {
        self.name@ == other.name@ && self.category.0@ == other.category.0@
    }
}

/// What an `Example` holds.
pub ghost struct ExampleView {
    pub name: Seq<char>,
    pub category: Seq<char>,
    pub flaky: bool,
}

impl View for Example {
    type V = ExampleView;

    open spec fn view(&self) -> ExampleView {
        ExampleView { name: self.name@, category: self.category.0@, flaky: self.flaky }
    }
}

/// What a sequence of `Example` holds.
pub open spec fn example_views(examples: Seq<Example>) -> Seq<ExampleView> {
    Seq::new(examples.len(), |i: int| examples[i]@)
}

/// The key of an example in the registry: category and name.
pub open spec fn key_of(example: ExampleView) -> Key {
    (example.category, example.name)
}

impl RunView {
    /// Whether the run holds a screenshot of the example with this name, on
    /// whatever platform.
    pub open spec fn shows(self, name: Seq<char>) -> bool {
        has_outer(self.screenshots, name)
    }

    /// Whether the example with this name failed in the run, on whatever
    /// platform.
    pub open spec fn failed(self, name: Seq<char>) -> bool {
        exists|platform: Seq<char>|
            #[trigger] self.results.contains_key((name, platform)) && self.results[(
                name,
                platform,
            )] == Outcome::Failures
    }
}

impl Run {
    /// Whether the example with this name failed in the run.
    pub fn has_failure(&self, name: &str) -> (r: bool)
        ensures
            r == self@.failed(name@),
    {
        let rows = self.results.as_rows();
        let mut i: usize = 0;
        while i < rows.len()
            invariant
                i <= rows.len(),
                distinct_keys(rows@),
                rows_map(rows@) == self.results@,
                forall|j: int|
                    0 <= j < i ==> !((#[trigger] rows@[j]).outer@ == name@ && rows@[j].value
                        == Outcome::Failures),
            decreases rows.len() - i,
        {
            if same(rows[i].outer.as_str(), name) && rows[i].value == Outcome::Failures {
                proof {
                    lemma_rows_map_at(rows@, i as int);
                    assert(self.results@.contains_key((name@, rows@[i as int].inner@)));
                }
                return true;
            }
            i += 1;
        }
        proof {
            if self@.failed(name@) {
                let platform = choose|platform: Seq<char>|
                    #[trigger] self.results@.contains_key((name@, platform)) && self.results@[(
                        name@,
                        platform,
                    )] == Outcome::Failures;
                lemma_rows_map_dom(rows@, (name@, platform));
                let j = choose|j: int|
                    0 <= j < rows.len() && row_key(#[trigger] rows@[j]) == (name@, platform);
                lemma_rows_map_at(rows@, j);
            }
        }
        false
    }
}

/// Whether some run holds a screenshot of the example with this name.
pub open spec fn has_screenshot(runs: Seq<RunView>, name: Seq<char>) -> bool {
    exists|r: int| 0 <= r < runs.len() && (#[trigger] runs[r]).shows(name)
}

/// Whether the example with this name failed in some run.
pub open spec fn has_failure(runs: Seq<RunView>, name: Seq<char>) -> bool {
    exists|r: int| 0 <= r < runs.len() && (#[trigger] runs[r]).failed(name)
}

/// Whether the runs hold evidence of the example with this name: a screenshot
/// or a failure.
pub open spec fn has_evidence(runs: Seq<RunView>, name: Seq<char>) -> bool {
    has_screenshot(runs, name) || has_failure(runs, name)
}

/// The verdict on a registered example: flaky if the registry holds it as
/// flaky and the runs hold evidence of it.
pub open spec fn verdict(registry: Map<Key, bool>, runs: Seq<RunView>, example: Key) -> bool {
    registry[example] && has_evidence(runs, example.1)
}

/// The text by which examples are ordered: `<category>/<name>`.
pub open spec fn sort_key(example: Key) -> Seq<char> {
    example.0 + slash() + example.1
}

/// Whether one example stands before another in the report: in the
/// lexicographic order of `<category>/<name>`. Two examples can share that
/// text only where a category holds a `/`; the category then decides.
pub open spec fn stands_before(a: Key, b: Key) -> bool {
    lex_less(sort_key(a), sort_key(b)) || (sort_key(a) == sort_key(b) && lex_less(a.0, b.0))
}

/// Whether each of a sequence of examples stands before those behind it.
pub open spec fn in_order(keys: Seq<Key>) -> bool {
    forall|i: int, j: int|
        0 <= i < j < keys.len() ==> stands_before(#[trigger] keys[i], #[trigger] keys[j])
}

/// The keys of a sequence of examples.
pub open spec fn keys_of(examples: Seq<ExampleView>) -> Seq<Key> {
    Seq::new(examples.len(), |i: int| key_of(examples[i]))
}

/// Whether `examples` is the report on a registry and a sequence of runs: the
/// registered examples, each once and with its verdict, in order.
pub open spec fn is_report(
    examples: Seq<ExampleView>,
    registry: Map<Key, bool>,
    runs: Seq<RunView>,
) -> bool {
    &&& in_order(keys_of(examples))
    &&& forall|i: int|
        0 <= i < examples.len() ==> registry.contains_key(key_of(#[trigger] examples[i]))
            && examples[i].flaky == verdict(registry, runs, key_of(examples[i]))
    &&& forall|k: Key| #[trigger]
        registry.contains_key(k) ==> exists|i: int|
            0 <= i < examples.len() && key_of(#[trigger] examples[i]) == k
}

/// No example stands before itself.
pub proof fn lemma_stands_before_irreflexive(a: Key)
    ensures
        !stands_before(a, a),
{
    lemma_lex_less_irreflexive(sort_key(a));
    lemma_lex_less_irreflexive(a.0);
}

/// The order of the report is transitive.
pub proof fn lemma_stands_before_transitive(a: Key, b: Key, c: Key)
    requires
        stands_before(a, b),
        stands_before(b, c),
    ensures
        stands_before(a, c),
{
    if lex_less(sort_key(a), sort_key(b)) && lex_less(sort_key(b), sort_key(c)) {
        lemma_lex_less_transitive(sort_key(a), sort_key(b), sort_key(c));
    } else if sort_key(a) == sort_key(b) && sort_key(b) == sort_key(c) {
        lemma_lex_less_transitive(a.0, b.0, c.0);
    }
}

/// Of two different examples one stands before the other.
pub proof fn lemma_stands_before_total(a: Key, b: Key)
    ensures
        a == b || stands_before(a, b) || stands_before(b, a),
{
    lemma_lex_less_total(sort_key(a), sort_key(b));
    if sort_key(a) == sort_key(b) {
        lemma_lex_less_total(a.0, b.0);
        if a.0 == b.0 {
            let n = a.0.len() + 1;
            assert(a.1 =~= sort_key(a).skip(n as int));
            assert(b.1 =~= sort_key(b).skip(n as int));
        }
    }
}

/// The text by which an example is ordered.
pub fn sort_key_of(category: &str, name: &str) -> (key: Vec<char>)
    ensures
        key@ == sort_key((category@, name@)),
{
    let mut key: Vec<char> = Vec::new();
    push_str(&mut key, category);
    key.push('/');
    push_str(&mut key, name);
    assert(key@ =~= sort_key((category@, name@)));
    key
}

/// Whether the example `a` stands before the example `b`.
pub fn is_before(a: &Example, b: &Example) -> (r: bool)
    ensures
        r == stands_before(key_of(a@), key_of(b@)),
{
    let x = sort_key_of(a.category.0.as_str(), a.name.as_str());
    let y = sort_key_of(b.category.0.as_str(), b.name.as_str());
    match place_of(&x, &y) {
        Place::Before => true,
        Place::After => {
            proof {
                lemma_lex_less_irreflexive(x@);
                if lex_less(x@, y@) {
                    lemma_lex_less_transitive(x@, y@, x@);
                }
            }
            false
        },
        Place::Same => {
            proof {
                lemma_lex_less_irreflexive(x@);
            }
            let c = crate::text::chars_of(a.category.0.as_str());
            let d = crate::text::chars_of(b.category.0.as_str());
            match place_of(&c, &d) {
                Place::Before => true,
                _ => false,
            }
        },
    }
}

/// Whether some run holds a screenshot of the example with this name.
pub fn any_screenshot(runs: &Vec<Run>, name: &str) -> (r: bool)
    ensures
        r == has_screenshot(run_views(runs@), name@),
{
    let mut i: usize = 0;
    while i < runs.len()
        invariant
            i <= runs.len(),
            forall|j: int| 0 <= j < i ==> !(#[trigger] run_views(runs@)[j]).shows(name@),
        decreases runs.len() - i,
    {
        if runs[i].screenshots.contains_outer(name) {
            assert(run_views(runs@)[i as int].shows(name@));
            return true;
        }
        i += 1;
    }
    false
}

/// Whether the example with this name failed in some run.
pub fn any_failure(runs: &Vec<Run>, name: &str) -> (r: bool)
    ensures
        r == has_failure(run_views(runs@), name@),
{
    let mut i: usize = 0;
    while i < runs.len()
        invariant
            i <= runs.len(),
            forall|j: int| 0 <= j < i ==> !(#[trigger] run_views(runs@)[j]).failed(name@),
        decreases runs.len() - i,
    {
        if runs[i].has_failure(name) {
            assert(run_views(runs@)[i as int].failed(name@));
            return true;
        }
        i += 1;
    }
    false
}

/// Puts an example into a sequence that is in order, at its place.
fn insert_in_order(examples: &mut Vec<Example>, example: Example)
    requires
        in_order(keys_of(example_views(old(examples)@))),
        forall|i: int|
            0 <= i < old(examples).len() ==> key_of(#[trigger] old(examples)@[i]@) != key_of(
                example@,
            ),
    ensures
        in_order(keys_of(example_views(final(examples)@))),
        exists|p: int|
            0 <= p <= old(examples).len() && final(examples)@ == old(examples)@.insert(
                p,
                example,
            ),
{
    let ghost before = examples@;
    let ghost new = key_of(example@);
    let mut p: usize = 0;
    while p < examples.len() && !is_before(&example, &examples[p])
        invariant
            p <= examples.len(),
            examples@ == before,
            new == key_of(example@),
            forall|i: int| 0 <= i < before.len() ==> key_of(#[trigger] before[i]@) != new,
            forall|i: int| 0 <= i < p ==> stands_before(key_of(#[trigger] before[i]@), new),
        decreases examples.len() - p,
    {
        proof {
            lemma_stands_before_total(new, key_of(before[p as int]@));
        }
        p += 1;
    }
    examples.insert(p, example);
    proof {
        let after = examples@;
        let old_keys = keys_of(example_views(before));
        let keys = keys_of(example_views(after));
        assert forall|i: int, j: int| 0 <= i < j < keys.len() implies stands_before(
            #[trigger] keys[i],
            #[trigger] keys[j],
        ) by {
            if j < p {
                assert(keys[i] == old_keys[i] && keys[j] == old_keys[j]);
            } else if j == p {
                assert(keys[i] == key_of(before[i]@));
            } else if i < p {
                assert(keys[i] == old_keys[i] && keys[j] == old_keys[j - 1]);
            } else if i == p {
                assert(keys[j] == old_keys[j - 1]);
                assert(stands_before(new, key_of(before[p as int]@)));
                if j - 1 > p {
                    assert(stands_before(old_keys[p as int], old_keys[j - 1]));
                    lemma_stands_before_transitive(new, old_keys[p as int], old_keys[j - 1]);
                }
            } else {
                assert(keys[i] == old_keys[i - 1] && keys[j] == old_keys[j - 1]);
            }
        }
    }
}

/// Whether `examples` holds the examples of the first `n` rows of a registry,
/// and no others, each with its verdict.
pub open spec fn covers(
    examples: Seq<ExampleView>,
    rows: Seq<Row<bool>>,
    n: int,
    registry: Map<Key, bool>,
    runs: Seq<RunView>,
) -> bool {
    &&& forall|a: int|
        0 <= a < examples.len() ==> exists|j: int|
            0 <= j < n && row_key(#[trigger] rows[j]) == key_of(#[trigger] examples[a])
    &&& forall|a: int|
        0 <= a < examples.len() ==> (#[trigger] examples[a]).flaky == verdict(
            registry,
            runs,
            key_of(examples[a]),
        )
    &&& forall|j: int|
        0 <= j < n ==> exists|a: int|
            0 <= a < examples.len() && key_of(#[trigger] examples[a]) == row_key(
                #[trigger] rows[j],
            )
}

/// With the example of the next row put in, the examples of one row more are
/// held.
pub proof fn lemma_covers_insert(
    examples: Seq<ExampleView>,
    p: int,
    example: ExampleView,
    rows: Seq<Row<bool>>,
    n: int,
    registry: Map<Key, bool>,
    runs: Seq<RunView>,
)
    requires
        covers(examples, rows, n, registry, runs),
        0 <= p <= examples.len(),
        0 <= n < rows.len(),
        key_of(example) == row_key(rows[n]),
        example.flaky == verdict(registry, runs, key_of(example)),
    ensures
        covers(examples.insert(p, example), rows, n + 1, registry, runs),
{
    let next = examples.insert(p, example);
    assert forall|a: int| 0 <= a < next.len() implies exists|j: int|
        0 <= j < n + 1 && row_key(#[trigger] rows[j]) == key_of(#[trigger] next[a]) by {
        if a == p {
            assert(row_key(rows[n]) == key_of(next[a]));
        } else {
            let b = if a < p {
                a
            } else {
                a - 1
            };
            assert(next[a] == examples[b]);
            let j = choose|j: int|
                0 <= j < n && row_key(#[trigger] rows[j]) == key_of(examples[b]);
            assert(row_key(rows[j]) == key_of(next[a]));
        }
    }
    assert forall|a: int| 0 <= a < next.len() implies (#[trigger] next[a]).flaky == verdict(
        registry,
        runs,
        key_of(next[a]),
    ) by {
        if a != p {
            let b = if a < p {
                a
            } else {
                a - 1
            };
            assert(next[a] == examples[b]);
        }
    }
    assert forall|j: int| 0 <= j < n + 1 implies exists|a: int|
        0 <= a < next.len() && key_of(#[trigger] next[a]) == row_key(#[trigger] rows[j]) by {
        if j < n {
            let a = choose|a: int|
                0 <= a < examples.len() && key_of(#[trigger] examples[a]) == row_key(rows[j]);
            let b = if a < p {
                a
            } else {
                a + 1
            };
            assert(next[b] == examples[a]);
        } else {
            assert(key_of(next[p]) == row_key(rows[j]));
        }
    }
}

/// What holds the examples of all rows of a registry, in order, is the report.
pub proof fn lemma_covers_all(
    examples: Seq<ExampleView>,
    rows: Seq<Row<bool>>,
    registry: Map<Key, bool>,
    runs: Seq<RunView>,
)
    requires
        covers(examples, rows, rows.len() as int, registry, runs),
        in_order(keys_of(examples)),
        distinct_keys(rows),
        rows_map(rows) == registry,
    ensures
        is_report(examples, registry, runs),
{
    assert forall|a: int| 0 <= a < examples.len() implies registry.contains_key(
        key_of(#[trigger] examples[a]),
    ) by {
        let j = choose|j: int|
            0 <= j < rows.len() && row_key(#[trigger] rows[j]) == key_of(examples[a]);
        lemma_rows_map_at(rows, j);
    }
    assert forall|k: Key| #[trigger] registry.contains_key(k) implies exists|a: int|
        0 <= a < examples.len() && key_of(#[trigger] examples[a]) == k by {
        lemma_rows_map_dom(rows, k);
        let j = choose|j: int| 0 <= j < rows.len() && row_key(#[trigger] rows[j]) == k;
        let a = choose|a: int|
            0 <= a < examples.len() && key_of(#[trigger] examples[a]) == row_key(rows[j]);
        assert(key_of(examples[a]) == k);
    }
}

/// The report on a registry and a sequence of runs: the registered examples in
/// order, each flaky if the registry holds it as flaky and some run holds a
/// screenshot or a failure of an example with its name.
pub fn aggregate(registry: &Table<bool>, runs: &Vec<Run>) -> (examples: Vec<Example>)
    ensures
        is_report(example_views(examples@), registry@, run_views(runs@)),
{
    let rows = registry.as_rows();
    let mut examples: Vec<Example> = Vec::new();
    let mut i: usize = 0;
    while i < rows.len()
        invariant
            i <= rows.len(),
            distinct_keys(rows@),
            rows_map(rows@) == registry@,
            in_order(keys_of(example_views(examples@))),
            covers(example_views(examples@), rows@, i as int, registry@, run_views(runs@)),
        decreases rows.len() - i,
    {
        let row = &rows[i];
        let evident = any_screenshot(runs, row.inner.as_str()) || any_failure(
            runs,
            row.inner.as_str(),
        );
        let example = Example {
            name: row.inner.clone(),
            category: ExampleCategory(row.outer.clone()),
            flaky: row.value && evident,
        };
        let ghost before = examples@;
        let ghost added = example@;
        proof {
            lemma_rows_map_at(rows@, i as int);
            assert(key_of(added) == row_key(rows@[i as int]));
            assert forall|a: int| 0 <= a < before.len() implies key_of(#[trigger] before[a]@)
                != key_of(added) by {
                let views = example_views(before);
                assert(views[a] == before[a]@);
                let j = choose|j: int|
                    0 <= j < i && row_key(#[trigger] rows@[j]) == key_of(views[a]);
                assert(row_key(rows@[j]) != row_key(rows@[i as int]));
            }
        }
        insert_in_order(&mut examples, example);
        proof {
            let p = choose|p: int|
                0 <= p <= before.len() && examples@ == before.insert(p, example);
            assert(example_views(examples@) =~= example_views(before).insert(p, added));
            lemma_covers_insert(
                example_views(before),
                p,
                added,
                rows@,
                i as int,
                registry@,
                run_views(runs@),
            );
        }
        i += 1;
    }
    proof {
        lemma_covers_all(example_views(examples@), rows@, registry@, run_views(runs@));
    }
    examples
}

/// Two sequences of examples that are in order and hold the same examples are
/// one sequence.
pub proof fn lemma_in_order_unique(x: Seq<Key>, y: Seq<Key>)
    requires
        in_order(x),
        in_order(y),
        forall|k: Key| x.contains(k) <==> y.contains(k),
    ensures
        x == y,
    decreases x.len(),
{
    if x.len() == 0 {
        if y.len() > 0 {
            assert(y.contains(y[0]));
        }
        assert(x =~= y);
    } else if y.len() == 0 {
        assert(x.contains(x[0]));
    } else {
        let a = x.last();
        let b = y.last();
        assert(x.contains(a));
        assert(y.contains(b));
        let i = choose|i: int| 0 <= i < y.len() && y[i] == a;
        let j = choose|j: int| 0 <= j < x.len() && x[j] == b;
        if a != b {
            assert(stands_before(y[i], y[y.len() - 1]));
            assert(stands_before(x[j], x[x.len() - 1]));
            lemma_stands_before_transitive(a, b, a);
            lemma_stands_before_irreflexive(a);
        }
        let xs = x.drop_last();
        let ys = y.drop_last();
        assert forall|k: Key| xs.contains(k) <==> ys.contains(k) by {
            if xs.contains(k) {
                let p = choose|p: int| 0 <= p < xs.len() && xs[p] == k;
                assert(stands_before(x[p], x[x.len() - 1]));
                lemma_stands_before_irreflexive(a);
                assert(x.contains(k));
                let q = choose|q: int| 0 <= q < y.len() && y[q] == k;
                assert(ys[q] == k);
            }
            if ys.contains(k) {
                let p = choose|p: int| 0 <= p < ys.len() && ys[p] == k;
                assert(stands_before(y[p], y[y.len() - 1]));
                lemma_stands_before_irreflexive(b);
                assert(y.contains(k));
                let q = choose|q: int| 0 <= q < x.len() && x[q] == k;
                assert(xs[q] == k);
            }
        }
        assert(in_order(xs)) by {
            assert forall|i: int, j: int| 0 <= i < j < xs.len() implies stands_before(
                #[trigger] xs[i],
                #[trigger] xs[j],
            ) by {
                assert(xs[i] == x[i] && xs[j] == x[j]);
            }
        }
        assert(in_order(ys)) by {
            assert forall|i: int, j: int| 0 <= i < j < ys.len() implies stands_before(
                #[trigger] ys[i],
                #[trigger] ys[j],
            ) by {
                assert(ys[i] == y[i] && ys[j] == y[j]);
            }
        }
        lemma_in_order_unique(xs, ys);
        assert(x =~= xs.push(a));
        assert(y =~= ys.push(b));
    }
}

/// The examples of a report are those of the registry.
pub proof fn lemma_report_keys(
    examples: Seq<ExampleView>,
    registry: Map<Key, bool>,
    runs: Seq<RunView>,
)
    requires
        is_report(examples, registry, runs),
    ensures
        forall|k: Key| keys_of(examples).contains(k) <==> registry.contains_key(k),
{
    let keys = keys_of(examples);
    assert forall|k: Key| keys.contains(k) <==> registry.contains_key(k) by {
        if keys.contains(k) {
            let i = choose|i: int| 0 <= i < keys.len() && keys[i] == k;
            assert(key_of(examples[i]) == k);
        }
        if registry.contains_key(k) {
            let i = choose|i: int| 0 <= i < examples.len() && key_of(#[trigger] examples[i]) == k;
            assert(keys[i] == k);
        }
    }
}

/// There is one report on a registry and a sequence of runs: whoever reports on
/// them again finds the same examples in the same order with the same flags.
pub proof fn lemma_report_unique(
    first: Seq<ExampleView>,
    second: Seq<ExampleView>,
    registry: Map<Key, bool>,
    runs: Seq<RunView>,
)
    requires
        is_report(first, registry, runs),
        is_report(second, registry, runs),
    ensures
        first == second,
{
    lemma_report_keys(first, registry, runs);
    lemma_report_keys(second, registry, runs);
    lemma_in_order_unique(keys_of(first), keys_of(second));
    assert(first.len() == keys_of(first).len());
    assert(second.len() == keys_of(second).len());
    assert forall|i: int| 0 <= i < first.len() implies first[i] == second[i] by {
        assert(keys_of(first)[i] == key_of(first[i]));
        assert(keys_of(second)[i] == key_of(second[i]));
    }
    assert(first =~= second);
}

/// A report is the report on itself: with a registry that holds the examples
/// of a report, each with the flag that the report gave it, the report on the
/// same runs is the same.
pub proof fn lemma_report_idempotent(
    examples: Seq<ExampleView>,
    registry: Map<Key, bool>,
    runs: Seq<RunView>,
    again: Map<Key, bool>,
)
    requires
        is_report(examples, registry, runs),
        forall|k: Key| again.contains_key(k) <==> registry.contains_key(k),
        forall|i: int|
            0 <= i < examples.len() ==> again[key_of(#[trigger] examples[i])] == examples[i].flaky,
    ensures
        is_report(examples, again, runs),
{
    assert forall|k: Key| #[trigger] again.contains_key(k) implies exists|i: int|
        0 <= i < examples.len() && key_of(#[trigger] examples[i]) == k by {
        assert(registry.contains_key(k));
    }
}

/// An example that the report calls flaky has evidence in the runs: a failure
/// or a screenshot of an example with its name.
pub proof fn lemma_flaky_has_evidence(
    examples: Seq<ExampleView>,
    registry: Map<Key, bool>,
    runs: Seq<RunView>,
    i: int,
)
    requires
        is_report(examples, registry, runs),
        0 <= i < examples.len(),
        examples[i].flaky,
    ensures
        registry[key_of(examples[i])],
        has_failure(runs, examples[i].name) || has_screenshot(runs, examples[i].name),
{
}

/// Whether some run holds, of the example with this name, a screenshot that it
/// kept as changed.
pub open spec fn has_changed_screenshot(runs: Seq<RunView>, name: Seq<char>) -> bool {
    exists|r: int, platform: Seq<char>|
        0 <= r < runs.len() && #[trigger] runs[r].screenshots.contains_key((name, platform))
            && runs[r].screenshots[(name, platform)].state == ScreenshotState::Changed
}

/// An example that the report calls flaky has a failure or a changed
/// screenshot in the runs, unless all that the runs hold of it are screenshots
/// kept as similar.
pub proof fn lemma_flaky_has_failure_or_change(
    examples: Seq<ExampleView>,
    registry: Map<Key, bool>,
    runs: Seq<RunView>,
    i: int,
)
    requires
        is_report(examples, registry, runs),
        0 <= i < examples.len(),
        examples[i].flaky,
        has_screenshot(runs, examples[i].name) ==> has_failure(runs, examples[i].name)
            || has_changed_screenshot(runs, examples[i].name),
    ensures
        has_failure(runs, examples[i].name) || has_changed_screenshot(runs, examples[i].name),
{
}

/// An example of which the runs hold neither a failure nor a screenshot is not
/// flaky in the report, whatever the registry holds.
pub proof fn lemma_no_evidence_not_flaky(
    examples: Seq<ExampleView>,
    registry: Map<Key, bool>,
    runs: Seq<RunView>,
    i: int,
)
    requires
        is_report(examples, registry, runs),
        0 <= i < examples.len(),
        !has_failure(runs, examples[i].name),
        !has_screenshot(runs, examples[i].name),
    ensures
        !examples[i].flaky,
{
}

} // verus!
