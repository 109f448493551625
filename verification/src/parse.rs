//! The grammar of result lines and of the names of artifacts.

use crate::model::{kind_named, platform_named, Error, Kind, Platform};
use crate::text::{
    chars_of, find, first_segment, first_segment_in, lemma_find_is, lemma_find_none, matches_at,
    split_once, split_once_in, string_from,
};
use vstd::prelude::*;

verus! {

/// What parts a result line from what follows the example: `" - "`.
pub open spec fn dash() -> Seq<char> {
    seq![' ', '-', ' ']
}

/// What parts category and name: `/`.
pub open spec fn slash() -> Seq<char> {
    seq!['/']
}

/// What parts the pieces of a file name: `-`.
pub open spec fn hyphen() -> Seq<char> {
    seq!['-']
}

/// What ends the stem of a file name: `.`.
pub open spec fn dot() -> Seq<char> {
    seq!['.']
}

/// `" - "`.
pub fn dash_pattern() -> (v: Vec<char>)
    ensures
        v@ == dash(),
{
    vec![' ', '-', ' ']
}

/// `/`.
pub fn slash_pattern() -> (v: Vec<char>)
    ensures
        v@ == slash(),
{
    vec!['/']
}

/// `-`.
pub fn hyphen_pattern() -> (v: Vec<char>)
    ensures
        v@ == hyphen(),
{
    vec!['-']
}

/// `.`.
pub fn dot_pattern() -> (v: Vec<char>)
    ensures
        v@ == dot(),
{
    vec!['.']
}

/// Category and name of a path `<category>/<name>`: the category is what
/// stands before the first `/`, the name what follows up to the next `/` or
/// the end. A path without `/` has neither.
pub open spec fn category_and_name(path: Seq<char>) -> Option<(Seq<char>, Seq<char>)> {
    match split_once(path, slash()) {
        Some((category, rest)) => Some((category, first_segment(rest, slash()))),
        None => None,
    }
}

/// Category and name of the example of a result line
/// `<category>/<name> - <anything>`. The example is what stands before the
/// first `" - "`; a line without `" - "`, or without `/` in its example, has
/// none.
pub open spec fn line_example(line: Seq<char>) -> Option<(Seq<char>, Seq<char>)> {
    match split_once(line, dash()) {
        Some((example, _)) => category_and_name(example),
        None => None,
    }
}

/// Category and name of the example that a screenshot names as
/// `<category>/<name>.<extension>`: those of what stands before the first `.`.
pub open spec fn screenshot_example(path: Seq<char>) -> Option<(Seq<char>, Seq<char>)> {
    category_and_name(first_segment(path, dot()))
}

/// An example as a line or a screenshot names it.
#[derive(Debug)]
pub struct ExampleName {
    pub category: String,
    pub name: String,
}

/// Category and name of a path `<category>/<name>`.
pub fn parse_category_and_name(path: &Vec<char>) -> (r: Option<ExampleName>)
    ensures
        match r {
            Some(e) => category_and_name(path@) == Some((e.category@, e.name@)),
            None => category_and_name(path@) is None,
        },
{
    let slash = slash_pattern();
    match split_once_in(path, &slash) {
        Some((category, rest)) => {
            let name = first_segment_in(&rest, &slash);
            Some(ExampleName { category: string_from(&category), name: string_from(&name) })
        },
        None => None,
    }
}

/// Reads one result line.
pub fn parse_result_line(line: &str) -> (r: Result<ExampleName, Error>)
    ensures
        match r {
            Ok(e) => line_example(line@) == Some((e.category@, e.name@)),
            Err(e) => e == Error::MalformedLine && line_example(line@) is None,
        },
{
    let chars = chars_of(line);
    parse_line_chars(&chars)
}

/// Reads one result line, given as its characters.
pub fn parse_line_chars(line: &Vec<char>) -> (r: Result<ExampleName, Error>)
    ensures
        match r {
            Ok(e) => line_example(line@) == Some((e.category@, e.name@)),
            Err(e) => e == Error::MalformedLine && line_example(line@) is None,
        },
{
    let dash = dash_pattern();
    match split_once_in(line, &dash) {
        Some((example, _)) => match parse_category_and_name(&example) {
            Some(e) => Ok(e),
            None => Err(Error::MalformedLine),
        },
        None => Err(Error::MalformedLine),
    }
}

/// Reads the example that a screenshot of a desktop platform names.
pub fn parse_screenshot_example(path: &str) -> (r: Result<ExampleName, Error>)
    ensures
        match r {
            Ok(e) => screenshot_example(path@) == Some((e.category@, e.name@)),
            Err(e) => e == Error::MalformedExample && screenshot_example(path@) is None,
        },
{
    let chars = chars_of(path);
    let stem = first_segment_in(&chars, &dot_pattern());
    match parse_category_and_name(&stem) {
        Some(e) => Ok(e),
        None => Err(Error::MalformedExample),
    }
}

/// Platform and kind of an artifact named `<platform>-<kind>`. The platform
/// is read first; what follows a second `-` is not read.
pub open spec fn artifact_named(name: Seq<char>) -> Result<(Platform, Kind), Error> {
    match platform_named(first_segment(name, hyphen())) {
        None => Err(Error::UnknownPlatform),
        Some(platform) => match split_once(name, hyphen()) {
            None => Err(Error::MalformedArtifactName),
            Some((_, rest)) => match kind_named(first_segment(rest, hyphen())) {
                None => Err(Error::UnknownKind),
                Some(kind) => Ok((platform, kind)),
            },
        },
    }
}

/// Reads the file name of an artifact.
pub fn parse_artifact_name(name: &str) -> (r: Result<(Platform, Kind), Error>)
    ensures
        r == artifact_named(name@),
{
    let chars = chars_of(name);
    let hyphen = hyphen_pattern();
    let first = string_from(&first_segment_in(&chars, &hyphen));
    let platform = match Platform::from_str(first.as_str()) {
        Ok(platform) => platform,
        Err(_) => {
            return Err(Error::UnknownPlatform);
        },
    };
    match split_once_in(&chars, &hyphen) {
        None => Err(Error::MalformedArtifactName),
        Some((_, rest)) => {
            let second = string_from(&first_segment_in(&rest, &hyphen));
            match Kind::from_str(second.as_str()) {
                Ok(kind) => Ok((platform, kind)),
                Err(_) => Err(Error::UnknownKind),
            }
        },
    }
}


/// A text without `/` holds no occurrence of the pattern `/`.
pub proof fn lemma_no_slash(s: Seq<char>)
    requires
        !s.contains('/'),
    ensures
        find(s, slash()) is None,
        first_segment(s, slash()) == s,
        category_and_name(s) is None,
{
    assert forall|j: int| 0 <= j implies !matches_at(s, slash(), j) by {
        if matches_at(s, slash(), j) {
            assert(s.subrange(j, j + 1)[0] == s[j]);
            assert(s.contains(s[j]));
        }
    }
    lemma_find_none(s, slash());
}

/// A path made of a category, `/` and a name reads as that category and name,
/// where neither holds a `/`.
pub proof fn lemma_category_and_name(category: Seq<char>, name: Seq<char>)
    requires
        !category.contains('/'),
        !name.contains('/'),
    ensures
        category_and_name(category + slash() + name) == Some((category, name)),
{
    let path = category + slash() + name;
    let k = category.len() as int;
    assert(path.subrange(k, k + 1) =~= slash());
    assert forall|j: int| 0 <= j < k implies !matches_at(path, slash(), j) by {
        if matches_at(path, slash(), j) {
            assert(path.subrange(j, j + 1)[0] == category[j]);
            assert(category.contains(category[j]));
        }
    }
    lemma_find_is(path, slash(), k);
    assert(path.take(k) =~= category);
    assert(path.skip(k + 1) =~= name);
    lemma_no_slash(name);
}

/// A line made of a category, `/`, a name, `" - "` and anything else reads as
/// that category and name. This holds where neither of the two holds a `/`
/// and no `" - "` begins inside them; of any other line so made it fails.
pub proof fn lemma_line_reads_back(category: Seq<char>, name: Seq<char>, rest: Seq<char>)
    requires
        !category.contains('/'),
        !name.contains('/'),
        forall|i: int|
            0 <= i < category.len() + 1 + name.len() ==> !matches_at(
                category + slash() + name + dash() + rest,
                dash(),
                i,
            ),
    ensures
        line_example(category + slash() + name + dash() + rest) == Some((category, name)),
{
    let example = category + slash() + name;
    let line = example + dash() + rest;
    let k = example.len() as int;
    assert(line.subrange(k, k + 3) =~= dash());
    lemma_find_is(line, dash(), k);
    assert(line.take(k) =~= example);
    lemma_category_and_name(category, name);
}

/// A line in which `" - "` stands nowhere names no example.
pub proof fn lemma_line_without_dash(line: Seq<char>)
    requires
        forall|i: int| 0 <= i ==> !matches_at(line, dash(), i),
    ensures
        line_example(line) is None,
{
    lemma_find_none(line, dash());
}

/// A line without `/` names no example.
pub proof fn lemma_line_without_slash(line: Seq<char>)
    requires
        !line.contains('/'),
    ensures
        line_example(line) is None,
{
    match split_once(line, dash()) {
        Some((example, _)) => {
            crate::text::lemma_find_from(line, dash(), 0);
            assert forall|c: char| example.contains(c) implies line.contains(c) by {
                let i = choose|i: int| 0 <= i < example.len() && example[i] == c;
                assert(line[i] == c);
            }
            lemma_no_slash(example);
        },
        None => {},
    }
}

} // verus!
