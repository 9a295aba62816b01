//! The decisions of the Test262 runner: which tests to skip, in which
//! modes to run them, what source to run, how to judge each run, and how to
//! read back the result that a child process reports.
use vstd::prelude::*;
use crate::text::{push_char, str_eq};
use crate::radix::{decimal_text, radix_fmt, radix_text};
use vstd::utf8::{decode_utf8, encode_utf8, valid_utf8};

verus! {

/// What running one Test262 test came to.
#[derive(Debug, Clone, PartialEq)]
pub enum TestOutcome {
    Pass,
    Fail(String),
    Skip(String),
}

/// The `negative` entry of a test's frontmatter: the phase and the type of
/// the error that the test expects.
#[derive(Debug, Clone, PartialEq)]
pub struct NegativeMetadata {
    pub phase: String,
    pub error_type: String,
}

/// The frontmatter of a Test262 test.
#[derive(Debug, Clone, PartialEq, Default)]
pub struct Metadata {
    pub flags: Vec<String>,
    pub includes: Vec<String>,
    pub features: Vec<String>,
    pub negative: Option<NegativeMetadata>,
}

/// How a run that completed ended.
#[derive(Debug, Clone, PartialEq)]
pub enum RunEnd {
    /// An error was thrown; the name of its constructor, when it has one.
    Thrown(Option<String>),
    /// The program returned normally.
    Finished,
}

/// How one run of a test's source ended.
#[derive(Debug, Clone, PartialEq)]
pub enum CaseOutcome {
    Completed(RunEnd),
    ParsePanic,
    CompilePanic,
    Panic,
}

/// The texts of a list of strings.
pub open spec fn texts(v: Seq<String>) -> Seq<Seq<char>> {
    v.map_values(|s: String| s@)
}

/// Whether the list `v` holds the text `t`.
pub open spec fn has_text(v: Seq<String>, t: Seq<char>) -> bool {
    texts(v).contains(t)
}

/// Whether some string of `v` spells `t`.
fn any_eq(v: &Vec<String>, t: &str) -> (r: bool)
    ensures r == has_text(v@, t@),
{
    let mut i: usize = 0;
    while i < v.len()
        invariant
            i <= v.len(),
            forall|j: int| 0 <= j < i ==> v@[j]@ != t@,
        decreases v.len() - i,
    {
        if str_eq(v[i].as_str(), t) {
            assert(texts(v@)[i as int] == t@);
            return true;
        }
        i = i + 1;
    }
    assert forall|j: int| 0 <= j < texts(v@).len() implies texts(v@)[j] != t@ by {
        assert(texts(v@)[j] == v@[j]@);
    }
    false
}

/// The name of a mode in messages.
pub fn mode_name(strict: bool) -> (r: &'static str)
    ensures r@ == (if strict { "strict"@ } else { "default"@ }),
{
    if strict { "strict" } else { "default" }
}

/// The first feature of `features`, in their order, that is among `skip`.
pub open spec fn first_skipped(features: Seq<String>, skip: Seq<String>) -> Option<Seq<char>>
    decreases features.len(),
{
    if features.len() == 0 {
        None
    } else if has_text(skip, features[0]@) {
        Some(features[0]@)
    } else {
        first_skipped(features.drop_first(), skip)
    }
}

/// Whether `phase` is one that the runner can check a negative test in.
pub open spec fn phase_supported(phase: Seq<char>) -> bool {
    phase == "parse"@ || phase == "early"@ || phase == "runtime"@
}

/// Why a test is skipped, if it is: an unsupported feature, a module or an
/// async test, or a negative test of a phase the runner cannot check.
pub open spec fn spec_skip_reason(m: Metadata, skip: Seq<String>) -> Option<Seq<char>> {
    if first_skipped(m.features@, skip) is Some {
        Some("unsupported feature "@ + first_skipped(m.features@, skip)->0)
    } else if has_text(m.flags@, "module"@) {
        Some("modules are not supported by this runner"@)
    } else if has_text(m.flags@, "async"@) {
        Some("async tests are not supported by this runner"@)
    } else if m.negative is Some && !phase_supported(m.negative->0.phase@) {
        Some("negative "@ + m.negative->0.phase@ + " tests are not supported by this runner"@)
    } else {
        None
    }
}

/// No feature of `features` is among `skip` exactly when none is found.
pub proof fn lemma_first_skipped_none(features: Seq<String>, skip: Seq<String>)
    ensures
        first_skipped(features, skip) is None
            <==> forall|i: int| 0 <= i < features.len() ==> !has_text(skip, #[trigger] features[i]@),
    decreases features.len(),
{
    if features.len() > 0 {
        lemma_first_skipped_none(features.drop_first(), skip);
        if first_skipped(features, skip) is None {
            assert forall|i: int| 0 <= i < features.len() implies !has_text(skip, #[trigger] features[i]@) by {
                if i > 0 {
                    assert(features[i] == features.drop_first()[i - 1]);
                }
            }
        } else if !has_text(skip, features[0]@) {
            let k = choose|k: int| 0 <= k < features.drop_first().len() && has_text(skip, #[trigger] features.drop_first()[k]@);
            assert(features.drop_first()[k] == features[k + 1]);
        }
    }
}

/// The runner runs a test, skipping it not, exactly when none of its
/// features is among the skipped ones, it has neither the `module` nor the
/// `async` flag, and it is either not negative or negative in the `parse`,
/// `early` or `runtime` phase.
pub proof fn law_skip_reason_runs(m: Metadata, skip: Seq<String>)
    ensures
        spec_skip_reason(m, skip) is None <==> {
            &&& forall|i: int| 0 <= i < m.features@.len() ==> !has_text(skip, #[trigger] m.features@[i]@)
            &&& !has_text(m.flags@, "module"@)
            &&& !has_text(m.flags@, "async"@)
            &&& m.negative is Some ==> (m.negative->0.phase@ == "parse"@ || m.negative->0.phase@ == "early"@
                || m.negative->0.phase@ == "runtime"@)
        },
{
    lemma_first_skipped_none(m.features@, skip);
}

/// Why the runner skips the test with frontmatter `metadata` when told to
/// skip the features `skip_features`, or `None` when it runs it.
pub fn skip_reason(metadata: &Metadata, skip_features: &Vec<String>) -> (r: Option<String>)
    ensures
        match r {
            Some(s) => spec_skip_reason(*metadata, skip_features@) == Some(s@),
            None => spec_skip_reason(*metadata, skip_features@) is None,
        },
{
    let mut i: usize = 0;
    assert(metadata.features@.skip(0) =~= metadata.features@);
    while i < metadata.features.len()
        invariant
            i <= metadata.features.len(),
            first_skipped(metadata.features@, skip_features@)
                == first_skipped(metadata.features@.skip(i as int), skip_features@),
        decreases metadata.features.len() - i,
    {
        let feature = &metadata.features[i];
        assert(metadata.features@.skip(i as int).drop_first() =~= metadata.features@.skip(i + 1));
        if any_eq(skip_features, feature.as_str()) {
            let mut reason = String::from_str("unsupported feature ");
            reason.append(feature.as_str());
            return Some(reason);
        }
        i = i + 1;
    }
    if any_eq(&metadata.flags, "module") {
        return Some(String::from_str("modules are not supported by this runner"));
    }
    if any_eq(&metadata.flags, "async") {
        return Some(String::from_str("async tests are not supported by this runner"));
    }
    if let Some(negative) = &metadata.negative {
        let p = negative.phase.as_str();
        if !(str_eq(p, "parse") || str_eq(p, "early") || str_eq(p, "runtime")) {
            let mut reason = String::from_str("negative ");
            reason.append(p);
            reason.append(" tests are not supported by this runner");
            return Some(reason);
        }
    }
    None
}

/// The modes to run a test in: `false` for the default mode, `true` for
/// strict mode.
pub open spec fn spec_strict_variants(flags: Seq<String>) -> Seq<bool> {
    let raw = has_text(flags, "raw"@);
    let only_strict = has_text(flags, "onlyStrict"@);
    let no_strict = has_text(flags, "noStrict"@) || raw;
    if no_strict {
        seq![false]
    } else if only_strict {
        seq![true]
    } else {
        seq![false, true]
    }
}

/// The modes the runner runs a test with frontmatter `metadata` in.
pub fn strict_variants(metadata: &Metadata) -> (r: Vec<bool>)
    ensures r@ == spec_strict_variants(metadata.flags@),
{
    let raw = any_eq(&metadata.flags, "raw");
    let only_strict = any_eq(&metadata.flags, "onlyStrict");
    let no_strict = any_eq(&metadata.flags, "noStrict") || raw;
    let mut v: Vec<bool> = Vec::new();
    if no_strict {
        v.push(false);
    } else if only_strict {
        v.push(true);
    } else {
        v.push(false);
        v.push(true);
    }
    assert(v@ =~= spec_strict_variants(metadata.flags@));
    v
}

/// Whether the test runs without the harness.
pub fn is_raw(metadata: &Metadata) -> (r: bool)
    ensures r == has_text(metadata.flags@, "raw"@),
{
    any_eq(&metadata.flags, "raw")
}

/// The source of a test in a mode: strict mode puts the directive
/// `"use strict";` on a line of its own in front.
pub fn mode_source(strict: bool, source: &str) -> (r: String)
    ensures r@ == (if strict { "\"use strict\";\n"@ + source@ } else { source@ }),
{
    if strict {
        let mut s = String::from_str("\"use strict\";\n");
        s.append(source);
        s
    } else {
        String::from_str(source)
    }
}

/// The harness's two files, each followed by a line break, then each
/// include followed by a line break, then the test.
pub open spec fn spec_harness_source(
    assert_js: Seq<char>,
    sta_js: Seq<char>,
    includes: Seq<Seq<char>>,
    test: Seq<char>,
) -> Seq<char> {
    assert_js + seq!['\n'] + sta_js + seq!['\n'] + includes.fold_left(
        Seq::<char>::empty(),
        |acc: Seq<char>, inc: Seq<char>| acc + inc + seq!['\n'],
    ) + test
}

/// The source to run for a test that uses the harness: the harness files
/// `assert.js` and `sta.js`, the sources of its includes, and the test.
pub fn harness_source(
    assert_js: &str,
    sta_js: &str,
    include_sources: &Vec<String>,
    test_source: &str,
) -> (r: String)
    ensures r@ == spec_harness_source(assert_js@, sta_js@, texts(include_sources@), test_source@),
{
    let mut s = String::from_str(assert_js);
    push_char(&mut s, '\n');
    s.append(sta_js);
    push_char(&mut s, '\n');
    let ghost head = s@;
    let ghost incs = texts(include_sources@);
    let ghost f = |acc: Seq<char>, inc: Seq<char>| acc + inc + seq!['\n'];
    let mut i: usize = 0;
    while i < include_sources.len()
        invariant
            i <= include_sources.len(),
            incs == texts(include_sources@),
            f == (|acc: Seq<char>, inc: Seq<char>| acc + inc + seq!['\n']),
            s@ == head + incs.take(i as int).fold_left(Seq::<char>::empty(), f),
        decreases include_sources.len() - i,
    {
        let ghost before = s@;
        s.append(include_sources[i].as_str());
        push_char(&mut s, '\n');
        assert(incs.take(i + 1).drop_last() =~= incs.take(i as int));
        assert(incs.take(i + 1).last() == include_sources@[i as int]@);
        assert(s@ =~= head + incs.take(i + 1).fold_left(Seq::<char>::empty(), f));
        i = i + 1;
    }
    assert(incs.take(include_sources.len() as int) =~= incs);
    s.append(test_source);
    assert(s@ =~= spec_harness_source(assert_js@, sta_js@, incs, test_source@));
    s
}


/// The name of a thrown error in messages.
pub open spec fn name_or_unknown(name: Option<String>) -> Seq<char> {
    match name {
        Some(n) => n@,
        None => "unknown error"@,
    }
}

/// What is wrong with how a completed run ended, given what the test
/// expects: `None` when it ended as expected.
pub open spec fn spec_check_result(result: RunEnd, negative: Option<NegativeMetadata>) -> Option<Seq<char>> {
    match result {
        RunEnd::Thrown(name) => match negative {
            Some(neg) => if name is Some && name->0@ == neg.error_type@ {
                None
            } else {
                Some("expected "@ + neg.error_type@ + ", got "@ + name_or_unknown(name))
            },
            None => Some("uncaught "@ + name_or_unknown(name)),
        },
        RunEnd::Finished => match negative {
            Some(neg) => Some("expected "@ + neg.error_type@ + " but completed normally"@),
            None => None,
        },
    }
}

/// Judges how a completed run ended against what the test expects.
pub fn check_result(result: &RunEnd, negative: &Option<NegativeMetadata>) -> (r: Option<String>)
    ensures
        match r {
            Some(s) => spec_check_result(*result, *negative) == Some(s@),
            None => spec_check_result(*result, *negative) is None,
        },
{
    match result {
        RunEnd::Thrown(name) => {
            let shown = match name {
                Some(n) => n.clone(),
                None => String::from_str("unknown error"),
            };
            assert(shown@ == name_or_unknown(*name));
            match negative {
                Some(neg) => {
                    let same = match name {
                        Some(n) => str_eq(n.as_str(), neg.error_type.as_str()),
                        None => false,
                    };
                    if same {
                        None
                    } else {
                        let mut m = String::from_str("expected ");
                        m.append(neg.error_type.as_str());
                        m.append(", got ");
                        m.append(shown.as_str());
                        Some(m)
                    }
                },
                None => {
                    let mut m = String::from_str("uncaught ");
                    m.append(shown.as_str());
                    Some(m)
                },
            }
        },
        RunEnd::Finished => match negative {
            Some(neg) => {
                let mut m = String::from_str("expected ");
                m.append(neg.error_type.as_str());
                m.append(" but completed normally");
                Some(m)
            },
            None => None,
        },
    }
}

/// Whether the test expects an error while parsing (`parse` or `early`).
pub open spec fn expects_parse_error(negative: Option<NegativeMetadata>) -> bool {
    negative is Some && (negative->0.phase@ == "parse"@ || negative->0.phase@ == "early"@)
}

/// What went wrong in one run of a test, without the mode: `None` when the
/// run went as the test expects.
pub open spec fn spec_case_reason(outcome: CaseOutcome, negative: Option<NegativeMetadata>) -> Option<Seq<char>> {
    match outcome {
        CaseOutcome::Completed(result) => if expects_parse_error(negative) {
            Some("expected "@ + negative->0.error_type@ + " during "@ + negative->0.phase@
                + " phase, but completed normally"@)
        } else {
            spec_check_result(result, negative)
        },
        CaseOutcome::ParsePanic => if expects_parse_error(negative) {
            if negative->0.error_type@ != "SyntaxError"@ {
                Some("expected "@ + negative->0.error_type@ + ", got SyntaxError"@)
            } else {
                None
            }
        } else {
            Some("parser panic"@)
        },
        CaseOutcome::CompilePanic => if negative is Some && negative->0.phase@ == "early"@ {
            if negative->0.error_type@ != "SyntaxError"@ {
                Some("expected "@ + negative->0.error_type@ + ", got SyntaxError"@)
            } else {
                None
            }
        } else {
            Some("interpreter panic"@)
        },
        CaseOutcome::Panic => Some("interpreter panic"@),
    }
}

/// The failure that one run of a test in a mode makes, prefixed with the
/// mode, or `None` when the run went as the test expects.
pub open spec fn spec_case_failure(outcome: CaseOutcome, negative: Option<NegativeMetadata>, strict: bool) -> Option<Seq<char>> {
    match spec_case_reason(outcome, negative) {
        Some(reason) => Some((if strict { "strict"@ } else { "default"@ }) + " mode: "@ + reason),
        None => None,
    }
}

/// A run that ends in a parser or compiler panic has met a SyntaxError.
/// It passes a negative test only when the test expects a `SyntaxError`
/// in a phase where that panic can come (`early`, or `parse` for the
/// parser), and when the test expects another error in such a phase the
/// failure says so: "<mode> mode: expected <type>, got SyntaxError".
pub proof fn law_syntax_error_panics(outcome: CaseOutcome, negative: Option<NegativeMetadata>, strict: bool)
    requires outcome is ParsePanic || outcome is CompilePanic,
    ensures
        spec_case_failure(outcome, negative, strict) is None <==> {
            &&& negative is Some
            &&& negative->0.error_type@ == "SyntaxError"@
            &&& (negative->0.phase@ == "early"@ || (outcome is ParsePanic && negative->0.phase@ == "parse"@))
        },
        (negative is Some && negative->0.error_type@ != "SyntaxError"@
            && (negative->0.phase@ == "early"@ || (outcome is ParsePanic && negative->0.phase@ == "parse"@)))
            ==> spec_case_failure(outcome, negative, strict) == Some(
                (if strict { "strict"@ } else { "default"@ }) + " mode: expected "@ + negative->0.error_type@
                    + ", got SyntaxError"@),
{
    let mode = if strict { "strict"@ } else { "default"@ };
    match spec_case_reason(outcome, negative) {
        Some(reason) => {
            assert(mode + " mode: "@ + reason == mode + (" mode: "@ + reason));
            if negative is Some && negative->0.error_type@ != "SyntaxError"@
                && (negative->0.phase@ == "early"@ || (outcome is ParsePanic && negative->0.phase@ == "parse"@)) {
                let t = negative->0.error_type@;
                assert(reason == "expected "@ + t + ", got SyntaxError"@);
                assert(mode + " mode: "@ + ("expected "@ + t + ", got SyntaxError"@)
                    =~= mode + " mode: expected "@ + t + ", got SyntaxError"@) by {
                    reveal_strlit(" mode: ");
                    reveal_strlit("expected ");
                    reveal_strlit(" mode: expected ");
                }
            }
        },
        None => {},
    }
}

/// How the runner judges each way a run can end, prefixed with the mode:
/// a panic of the interpreter always fails, and so does a parser panic in
/// a test that expects no parse-time error; a run that completes fails a
/// test expecting a parse-time error; otherwise a completed run passes
/// exactly when it throws the error the test expects, or, in a test
/// expecting none, when it finishes normally.
pub proof fn law_case_outcomes(outcome: CaseOutcome, negative: Option<NegativeMetadata>, strict: bool)
    ensures ({
        let mode = if strict { "strict"@ } else { "default"@ };
        let parse_time = negative is Some && (negative->0.phase@ == "parse"@ || negative->0.phase@ == "early"@);
        let r = spec_case_failure(outcome, negative, strict);
        &&& outcome is Panic ==> r == Some(mode + " mode: "@ + "interpreter panic"@)
        &&& outcome is ParsePanic && !parse_time ==> r == Some(mode + " mode: "@ + "parser panic"@)
        &&& outcome is CompilePanic && !(negative is Some && negative->0.phase@ == "early"@)
            ==> r == Some(mode + " mode: "@ + "interpreter panic"@)
        &&& outcome is Completed && parse_time ==> r == Some(mode + " mode: "@ + ("expected "@
            + negative->0.error_type@ + " during "@ + negative->0.phase@ + " phase, but completed normally"@))
        &&& outcome == CaseOutcome::Completed(RunEnd::Finished) && !parse_time
            ==> (r is None <==> negative is None)
        &&& (outcome matches CaseOutcome::Completed(RunEnd::Thrown(name)) && !parse_time)
            ==> (r is None <==> (negative is Some && outcome->Completed_0->Thrown_0 is Some
                && outcome->Completed_0->Thrown_0->0@ == negative->0.error_type@))
    }),
{
}

/// "expected <type>, got SyntaxError".
fn expected_got_syntax_error(error_type: &str) -> (r: String)
    ensures r@ == "expected "@ + error_type@ + ", got SyntaxError"@,
{
    let mut m = String::from_str("expected ");
    m.append(error_type);
    m.append(", got SyntaxError");
    m
}

/// Judges one run of a test in a mode.
pub fn case_failure(outcome: &CaseOutcome, negative: &Option<NegativeMetadata>, strict: bool) -> (r: Option<String>)
    ensures
        match r {
            Some(s) => spec_case_failure(*outcome, *negative, strict) == Some(s@),
            None => spec_case_failure(*outcome, *negative, strict) is None,
        },
{
    let parse_phase = match negative {
        Some(neg) => str_eq(neg.phase.as_str(), "parse") || str_eq(neg.phase.as_str(), "early"),
        None => false,
    };
    let reason: Option<String> = match outcome {
        CaseOutcome::Completed(result) => {
            if parse_phase {
                match negative {
                    Some(neg) => {
                        let mut m = String::from_str("expected ");
                        m.append(neg.error_type.as_str());
                        m.append(" during ");
                        m.append(neg.phase.as_str());
                        m.append(" phase, but completed normally");
                        Some(m)
                    },
                    None => None,
                }
            } else {
                check_result(result, negative)
            }
        },
        CaseOutcome::ParsePanic => {
            if parse_phase {
                match negative {
                    Some(neg) => if !str_eq(neg.error_type.as_str(), "SyntaxError") {
                        Some(expected_got_syntax_error(neg.error_type.as_str()))
                    } else {
                        None
                    },
                    None => None,
                }
            } else {
                Some(String::from_str("parser panic"))
            }
        },
        CaseOutcome::CompilePanic => {
            let early = match negative {
                Some(neg) => str_eq(neg.phase.as_str(), "early"),
                None => false,
            };
            if early {
                match negative {
                    Some(neg) => if !str_eq(neg.error_type.as_str(), "SyntaxError") {
                        Some(expected_got_syntax_error(neg.error_type.as_str()))
                    } else {
                        None
                    },
                    None => None,
                }
            } else {
                Some(String::from_str("interpreter panic"))
            }
        },
        CaseOutcome::Panic => Some(String::from_str("interpreter panic")),
    };
    match reason {
        Some(reason) => {
            let mut m = String::from_str(mode_name(strict));
            m.append(" mode: ");
            m.append(reason.as_str());
            Some(m)
        },
        None => None,
    }
}

/// The failures joined with `; `.
pub open spec fn join_failures(failures: Seq<Seq<char>>) -> Seq<char>
    decreases failures.len(),
{
    if failures.len() == 0 {
        Seq::empty()
    } else if failures.len() == 1 {
        failures[0]
    } else {
        join_failures(failures.drop_last()) + "; "@ + failures.last()
    }
}

/// The outcome of a test from the failures of its runs: a pass when there
/// are none, else a failure that lists them all.
pub fn test_outcome(failures: &Vec<String>) -> (r: TestOutcome)
    ensures
        failures@.len() == 0 ==> r == TestOutcome::Pass,
        failures@.len() > 0 ==> (r matches TestOutcome::Fail(m) && m@ == join_failures(texts(failures@))),
{
    if failures.len() == 0 {
        return TestOutcome::Pass;
    }
    let ghost fs = texts(failures@);
    let mut m = failures[0].clone();
    let mut i: usize = 1;
    assert(fs.take(1).drop_last() =~= Seq::<Seq<char>>::empty());
    while i < failures.len()
        invariant
            1 <= i <= failures.len(),
            fs == texts(failures@),
            m@ == join_failures(fs.take(i as int)),
        decreases failures.len() - i,
    {
        m.append("; ");
        m.append(failures[i].as_str());
        assert(fs.take(i + 1).drop_last() =~= fs.take(i as int));
        i = i + 1;
    }
    assert(fs.take(failures.len() as int) =~= fs);
    TestOutcome::Fail(m)
}


/// The first index from `i` on where `pat` occurs in `s`.
pub open spec fn find_from(s: Seq<char>, pat: Seq<char>, i: nat) -> Option<nat>
    decreases s.len() + 1 - i,
{
    if i + pat.len() > s.len() {
        None
    } else if s.subrange(i as int, (i + pat.len()) as int) == pat {
        Some(i)
    } else {
        find_from(s, pat, i + 1)
    }
}

/// A found occurrence lies within `s`, at or after where the search began.
pub proof fn lemma_find_from_bounds(s: Seq<char>, pat: Seq<char>, i: nat)
    ensures
        find_from(s, pat, i) matches Some(j) ==> i <= j && j + pat.len() <= s.len()
            && s.subrange(j as int, (j + pat.len()) as int) == pat,
    decreases s.len() + 1 - i,
{
    if i + pat.len() <= s.len() && s.subrange(i as int, (i + pat.len()) as int) != pat {
        lemma_find_from_bounds(s, pat, i + 1);
    }
}

/// Whether `pat` occurs in `s` from index `i` on.
pub open spec fn occurs_from(s: Seq<char>, pat: Seq<char>, i: nat) -> bool {
    find_from(s, pat, i) is Some
}

/// The first index from `from` on where `pat` occurs in `s`.
fn find_chars(s: &Vec<char>, pat: &Vec<char>, from: usize) -> (r: Option<usize>)
    requires from <= s@.len(),
    ensures
        match r {
            Some(i) => find_from(s@, pat@, from as nat) == Some(i as nat),
            None => find_from(s@, pat@, from as nat) is None,
        },
{
    let n = s.len();
    let m = pat.len();
    let mut i = from;
    while i <= n && m <= n - i
        invariant
            n == s@.len(),
            m == pat@.len(),
            from <= i <= n + 1,
            find_from(s@, pat@, from as nat) == find_from(s@, pat@, i as nat),
        decreases n + 1 - i,
    {
        let mut j: usize = 0;
        let mut same = true;
        while j < m
            invariant
                i + m <= n,
                n == s@.len(),
                m == pat@.len(),
                j <= m,
                same == (forall|k: int| 0 <= k < j ==> s@[i + k] == pat@[k]),
            decreases m - j,
        {
            if s[i + j] != pat[j] {
                same = false;
            }
            j = j + 1;
        }
        if same {
            assert(s@.subrange(i as int, i + m) =~= pat@);
            return Some(i);
        }
        assert(s@.subrange(i as int, i + m) != pat@) by {
            let k = choose|k: int| 0 <= k < m && s@[i + k] != pat@[k];
            assert(s@.subrange(i as int, i + m)[k] == s@[i + k]);
        }
        if i == n {
            i = n + 1;
        } else {
            i = i + 1;
        }
    }
    None
}

/// The characters of a string.
fn chars_of(s: &str) -> (r: Vec<char>)
    ensures r@ == s@,
{
    let mut v: Vec<char> = Vec::new();
    proof {
        vstd::string::axiom_spec_iter(s);
    }
    for c in it: s.chars()
        invariant
            it.seq() == s@,
            v@ == it.seq().take(it.index()),
    {
        v.push(c);
    }
    assert(v@ =~= s@);
    v
}

/// The characters from `from` to `to` as a string.
fn string_of_range(v: &Vec<char>, from: usize, to: usize) -> (r: String)
    requires from <= to <= v@.len(),
    ensures r@ == v@.subrange(from as int, to as int),
{
    let mut out = String::new();
    let mut i = from;
    while i < to
        invariant
            from <= i <= to <= v@.len(),
            out@ == v@.subrange(from as int, i as int),
        decreases to - i,
    {
        push_char(&mut out, v[i]);
        assert(v@.subrange(from as int, i + 1) =~= v@.subrange(from as int, i as int).push(v@[i as int]));
        i = i + 1;
    }
    out
}

/// The frontmatter of a test source: the text between the first `/*---`
/// and the first `---*/` after it; `None` when there is no `/*---`; an
/// error when it is not closed.
pub open spec fn spec_frontmatter(src: Seq<char>) -> Result<Option<Seq<char>>, Seq<char>> {
    match find_from(src, "/*---"@, 0) {
        None => Ok(None),
        Some(start) => match find_from(src, "---*/"@, start + 5) {
            None => Err("unterminated Test262 frontmatter"@),
            Some(end) => Ok(Some(src.subrange(start + 5int, end as int))),
        },
    }
}

/// Finds the frontmatter of a test source, to be read as YAML.
pub fn frontmatter(source: &str) -> (r: Result<Option<String>, String>)
    ensures
        match (r, spec_frontmatter(source@)) {
            (Ok(None), Ok(None)) => true,
            (Ok(Some(t)), Ok(Some(u))) => t@ == u,
            (Err(e), Err(f)) => e@ == f,
            _ => false,
        },
{
    let src = chars_of(source);
    let open = chars_of("/*---");
    let close = chars_of("---*/");
    proof {
        reveal_strlit("/*---");
    }
    match find_chars(&src, &open, 0) {
        None => Ok(None),
        Some(start) => {
            proof {
                lemma_find_from_bounds(src@, open@, 0);
            }
            assert(start + 5 <= src@.len());
            let _n = src.len();
            match find_chars(&src, &close, start + 5) {
                None => Err(String::from_str("unterminated Test262 frontmatter")),
                Some(end) => {
                    proof {
                        reveal_strlit("---*/");
                        lemma_find_from_bounds(src@, close@, (start + 5) as nat);
                    }
                    Ok(Some(string_of_range(&src, start + 5, end)))
                },
            }
        },
    }
}


/// The value of a test outcome: its message as characters.
pub enum SpecOutcome {
    Pass,
    Fail(Seq<char>),
    Skip(Seq<char>),
}

impl View for TestOutcome {
    type V = SpecOutcome;

    open spec fn view(&self) -> SpecOutcome {
        match self {
            TestOutcome::Pass => SpecOutcome::Pass,
            TestOutcome::Fail(m) => SpecOutcome::Fail(m@),
            TestOutcome::Skip(m) => SpecOutcome::Skip(m@),
        }
    }
}

/// A line without the `\r` of a `\r\n` ending.
pub open spec fn strip_cr(l: Seq<char>) -> Seq<char> {
    if l.len() > 0 && l.last() == '\r' { l.drop_last() } else { l }
}

/// The lines of `s` after a line begun with `cur`: split at `\n`, a `\r`
/// before the `\n` dropped, and no empty line after a final `\n` (as
/// `str::lines` documents).
pub open spec fn lines_from(s: Seq<char>, cur: Seq<char>) -> Seq<Seq<char>>
    decreases s.len(),
{
    if s.len() == 0 {
        if cur.len() == 0 { Seq::empty() } else { seq![cur] }
    } else if s[0] == '\n' {
        seq![strip_cr(cur)] + lines_from(s.drop_first(), Seq::empty())
    } else {
        lines_from(s.drop_first(), cur.push(s[0]))
    }
}

/// The rest of the last line of `ls` that begins with `p`.
pub open spec fn last_with_prefix(ls: Seq<Seq<char>>, p: Seq<char>) -> Option<Seq<char>>
    decreases ls.len(),
{
    if ls.len() == 0 {
        None
    } else if p.len() <= ls.last().len() && ls.last().take(p.len() as int) == p {
        Some(ls.last().skip(p.len() as int))
    } else {
        last_with_prefix(ls.drop_last(), p)
    }
}

/// The marker in front of the result that a child process reports.
pub open spec fn result_marker() -> Seq<char> {
    "__TEST262_RESULT__ "@
}

/// A result split at its first space into a status and a reason.
pub open spec fn split_status(r: Seq<char>) -> (Seq<char>, Seq<char>) {
    match find_from(r, seq![' '], 0) {
        Some(k) => (r.take(k as int), r.skip(k + 1int)),
        None => (r, Seq::empty()),
    }
}

/// The outcome that the report `text` of a child process gives: its last
/// line with the result marker names `PASS`, `FAIL`, `SKIP` or `ERROR`
/// and a reason.
pub open spec fn spec_child_result(text: Seq<char>) -> Result<SpecOutcome, Seq<char>> {
    match last_with_prefix(lines_from(text, Seq::empty()), result_marker()) {
        None => Err("test process returned no result"@),
        Some(rest) => {
            let (status, reason) = split_status(rest);
            if status == "PASS"@ {
                Ok(SpecOutcome::Pass)
            } else if status == "FAIL"@ {
                Ok(SpecOutcome::Fail(reason))
            } else if status == "SKIP"@ {
                Ok(SpecOutcome::Skip(reason))
            } else if status == "ERROR"@ {
                Err(reason)
            } else {
                Err("unknown child result "@ + status)
            }
        },
    }
}

/// The views of a list of character vectors.
pub open spec fn line_views(v: Seq<Vec<char>>) -> Seq<Seq<char>> {
    v.map_values(|l: Vec<char>| l@)
}

/// The rest of the last of `lines` that begins with `marker`.
fn last_marked(lines: &Vec<Vec<char>>, marker: &Vec<char>) -> (r: Option<Vec<char>>)
    ensures
        match r {
            Some(x) => last_with_prefix(line_views(lines@), marker@) == Some(x@),
            None => last_with_prefix(line_views(lines@), marker@) is None,
        },
{
    let ghost all = line_views(lines@);
    let m = marker.len();
    let mut k = lines.len();
    assert(all.take(k as int) =~= all);
    while k > 0
        invariant
            k <= lines@.len(),
            m == marker@.len(),
            all == line_views(lines@),
            last_with_prefix(all, marker@) == last_with_prefix(all.take(k as int), marker@),
        decreases k,
    {
        let ghost pre = all.take(k as int);
        assert(pre.last() == lines@[k - 1]@);
        assert(pre.drop_last() =~= all.take(k - 1));
        let line = &lines[k - 1];
        if m <= line.len() {
            let mut j: usize = 0;
            let mut same = true;
            while j < m
                invariant
                    m <= line@.len(),
                    m == marker@.len(),
                    j <= m,
                    same == (forall|t: int| 0 <= t < j ==> line@[t] == marker@[t]),
                decreases m - j,
            {
                if line[j] != marker[j] {
                    same = false;
                }
                j = j + 1;
            }
            if same {
                assert(line@.take(m as int) =~= marker@);
                let mut rest: Vec<char> = Vec::new();
                let mut t = m;
                while t < line.len()
                    invariant
                        m <= t <= line@.len(),
                        rest@ == line@.subrange(m as int, t as int),
                    decreases line.len() - t,
                {
                    rest.push(line[t]);
                    assert(line@.subrange(m as int, t + 1) =~= line@.subrange(m as int, t as int).push(line@[t as int]));
                    t = t + 1;
                }
                assert(rest@ =~= line@.skip(m as int));
                return Some(rest);
            } else {
                assert(line@.take(m as int) != marker@) by {
                    let t = choose|t: int| 0 <= t < m && line@[t] != marker@[t];
                    assert(line@.take(m as int)[t] == line@[t]);
                }
            }
        }
        k = k - 1;
    }
    None
}

/// Reads the outcome out of the report of a child process.
pub fn child_result(text: &str) -> (r: Result<TestOutcome, String>)
    ensures
        match (r, spec_child_result(text@)) {
            (Ok(o), Ok(p)) => o@ == p,
            (Err(e), Err(f)) => e@ == f,
            _ => false,
        },
{
    let s = chars_of(text);
    let n = s.len();
    let mut lines: Vec<Vec<char>> = Vec::new();
    let mut cur: Vec<char> = Vec::new();
    let mut i: usize = 0;
    assert(s@.skip(0) =~= s@);
    while i < n
        invariant
            n == s@.len(),
            i <= n,
            lines_from(s@, Seq::empty()) == line_views(lines@) + lines_from(s@.skip(i as int), cur@),
        decreases n - i,
    {
        let ghost rest = s@.skip(i as int);
        assert(rest.drop_first() =~= s@.skip(i + 1));
        if s[i] == '\n' {
            let ghost before = lines@;
            let ghost old_cur = cur@;
            let mut line = cur;
            if line.len() > 0 && line[line.len() - 1] == '\r' {
                line.pop();
            }
            assert(line@ == strip_cr(old_cur));
            lines.push(line);
            assert(line_views(lines@) =~= line_views(before) + seq![strip_cr(old_cur)]);
            cur = Vec::new();
            assert(line_views(lines@) + lines_from(s@.skip(i + 1), cur@)
                =~= line_views(before) + (seq![strip_cr(old_cur)] + lines_from(s@.skip(i + 1), Seq::empty())));
        } else {
            cur.push(s[i]);
        }
        i = i + 1;
    }
    assert(s@.skip(n as int) =~= Seq::<char>::empty());
    if cur.len() > 0 {
        let ghost before = lines@;
        let ghost last = cur@;
        lines.push(cur);
        assert(lines_from(s@.skip(n as int), last) == seq![last]);
        assert(line_views(lines@) =~= line_views(before) + seq![last]);
    } else {
        assert(line_views(lines@) + Seq::<Seq<char>>::empty() =~= line_views(lines@));
    }
    let ghost all = lines_from(s@, Seq::empty());
    assert(all == line_views(lines@));
    let marker = chars_of("__TEST262_RESULT__ ");
    let rest = match last_marked(&lines, &marker) {
        None => {
            return Err(String::from_str("test process returned no result"));
        },
        Some(rest) => rest,
    };
    assert(last_with_prefix(all, result_marker()) == Some(rest@));
    let space: Vec<char> = vec![' '];
    assert(space@ =~= seq![' ']);
    let (status, reason) = match find_chars(&rest, &space, 0) {
        Some(p) => {
            proof {
                lemma_find_from_bounds(rest@, space@, 0);
            }
            let _n = rest.len();
            (string_of_range(&rest, 0, p), string_of_range(&rest, p + 1, rest.len()))
        },
        None => (string_of_range(&rest, 0, rest.len()), String::new()),
    };
    assert(rest@.subrange(0, rest@.len() as int) =~= rest@);
    assert(status@ == split_status(rest@).0);
    assert(reason@ =~= split_status(rest@).1);
    let st = status.as_str();
    if str_eq(st, "PASS") {
        Ok(TestOutcome::Pass)
    } else if str_eq(st, "FAIL") {
        Ok(TestOutcome::Fail(reason))
    } else if str_eq(st, "SKIP") {
        Ok(TestOutcome::Skip(reason))
    } else if str_eq(st, "ERROR") {
        Err(reason)
    } else {
        let mut msg = String::from_str("unknown child result ");
        msg.append(st);
        Err(msg)
    }
}


/// The text that `String::from_utf8_lossy` makes of the bytes `b`.
pub uninterp spec fn utf8_lossy(b: Seq<u8>) -> Seq<char>;

/// Decodes bytes as UTF-8, each invalid sequence replaced by U+FFFD. Calls
/// `String::from_utf8_lossy`; the contract names its result, and states,
/// as the standard library documents, that valid UTF-8 is decoded as it
/// stands. How invalid sequences are replaced is not restated here.
#[verifier::external_body]
fn decode_lossy(bytes: &[u8]) -> (r: String)
    ensures
        r@ == utf8_lossy(bytes@),
        valid_utf8(bytes@) ==> r@ == decode_utf8(bytes@),
{
    String::from_utf8_lossy(bytes).into_owned()
}

/// Reads the outcome out of the standard error output of a child process.
pub fn parse_child_result(output: &[u8]) -> (r: Result<TestOutcome, String>)
    ensures
        match (r, spec_child_result(utf8_lossy(output@))) {
            (Ok(o), Ok(p)) => o@ == p,
            (Err(e), Err(f)) => e@ == f,
            _ => false,
        },
        valid_utf8(output@) ==> result_view(r) == spec_child_result(decode_utf8(output@)),
{
    let text = decode_lossy(output);
    child_result(text.as_str())
}

/// The exit code of a process that overflowed its stack on Windows.
pub const STACK_OVERFLOW_EXIT_CODE: i32 = -1_073_741_571;

/// How a child process that ran a test ended.
#[derive(Debug, Clone, PartialEq)]
pub enum ChildExit {
    /// It ran past the timeout and was killed.
    TimedOut,
    /// It exited, with its exit code when it has one, and whether that
    /// counts as success.
    Exited { code: Option<i32>, success: bool },
}

/// The outcome of a test that a child process ran: a failure for a timeout,
/// a stack overflow or an unsuccessful exit, else what its standard error
/// output reports.
pub open spec fn spec_child_outcome(exit: ChildExit, stderr: Seq<u8>, timeout_ms: nat) -> Result<SpecOutcome, Seq<char>> {
    match exit {
        ChildExit::TimedOut => Ok(SpecOutcome::Fail("timed out after "@ + radix_text(timeout_ms as int, 10) + " ms"@)),
        ChildExit::Exited { code, success } => if code == Some(STACK_OVERFLOW_EXIT_CODE) {
            Ok(SpecOutcome::Fail("interpreter stack overflow"@))
        } else if !success {
            Ok(SpecOutcome::Fail("test process exited with "@ + match code {
                Some(c) => radix_text(c as int, 10),
                None => "an unknown status"@,
            }))
        } else {
            spec_child_result(utf8_lossy(stderr))
        },
    }
}

/// Judges how the child process that ran a test ended, given the bytes it
/// wrote to standard error and the timeout it had, in milliseconds.
pub fn child_outcome(exit: &ChildExit, stderr: &[u8], timeout_ms: u64) -> (r: Result<TestOutcome, String>)
    ensures result_view(r) == spec_child_outcome(*exit, stderr@, timeout_ms as nat),
{
    match exit {
        ChildExit::TimedOut => {
            let mut m = String::from_str("timed out after ");
            let t = decimal_text(timeout_ms);
            m.append(t.as_str());
            m.append(" ms");
            Ok(TestOutcome::Fail(m))
        },
        ChildExit::Exited { code, success } => {
            let overflow = match code {
                Some(c) => *c == STACK_OVERFLOW_EXIT_CODE,
                None => false,
            };
            if overflow {
                Ok(TestOutcome::Fail(String::from_str("interpreter stack overflow")))
            } else if !*success {
                let mut m = String::from_str("test process exited with ");
                match code {
                    Some(c) => {
                        let t = radix_fmt(*c as i64, 10);
                        m.append(t.as_str());
                    },
                    None => m.append("an unknown status"),
                }
                Ok(TestOutcome::Fail(m))
            } else {
                let r = parse_child_result(stderr);
                assert(result_view(r) == spec_child_result(utf8_lossy(stderr@))) by {
                    match (r, spec_child_result(utf8_lossy(stderr@))) {
                        (Ok(o), Ok(p)) => {},
                        (Err(e), Err(f)) => {},
                        _ => {},
                    }
                }
                r
            }
        },
    }
}

/// The outcome of a test as a value: the outcome, or the error that kept
/// the test from running.
pub open spec fn result_view(r: Result<TestOutcome, String>) -> Result<SpecOutcome, Seq<char>> {
    match r {
        Ok(o) => Ok(o@),
        Err(e) => Err(e@),
    }
}

/// The line that a child process writes to report its outcome: the result
/// marker, the status and, but for a pass, a space and the message.
pub open spec fn spec_child_report(r: Result<SpecOutcome, Seq<char>>) -> Seq<char> {
    result_marker() + match r {
        Ok(SpecOutcome::Pass) => "PASS"@,
        Ok(SpecOutcome::Fail(m)) => "FAIL "@ + m,
        Ok(SpecOutcome::Skip(m)) => "SKIP "@ + m,
        Err(e) => "ERROR "@ + e,
    }
}

/// The line that the child process writes, without its line break, to
/// report the outcome of the test it ran.
pub fn child_report(outcome: &Result<TestOutcome, String>) -> (r: String)
    ensures r@ == spec_child_report(result_view(*outcome)),
{
    let mut line = String::from_str("__TEST262_RESULT__ ");
    match outcome {
        Ok(TestOutcome::Pass) => line.append("PASS"),
        Ok(TestOutcome::Fail(m)) => {
            line.append("FAIL ");
            line.append(m.as_str());
        },
        Ok(TestOutcome::Skip(m)) => {
            line.append("SKIP ");
            line.append(m.as_str());
        },
        Err(e) => {
            line.append("ERROR ");
            line.append(e.as_str());
        },
    }
    line
}

/// The message that a report carries, if it carries one.
pub open spec fn report_message(r: Result<SpecOutcome, Seq<char>>) -> Seq<char> {
    match r {
        Ok(SpecOutcome::Pass) => Seq::empty(),
        Ok(SpecOutcome::Fail(m)) => m,
        Ok(SpecOutcome::Skip(m)) => m,
        Err(e) => e,
    }
}

/// A message that a report line carries unchanged: no line break in it, and
/// no carriage return at its end.
pub open spec fn one_line(m: Seq<char>) -> bool {
    &&& !m.contains('\n')
    &&& (m.len() > 0 ==> m.last() != '\r')
}

/// A text without line breaks, followed by one, is a single line.
proof fn lemma_lines_one(s: Seq<char>, cur: Seq<char>)
    requires !s.contains('\n'),
    ensures lines_from(s + seq!['\n'], cur) == seq![strip_cr(cur + s)],
    decreases s.len(),
{
    if s.len() == 0 {
        assert(s + seq!['\n'] =~= seq!['\n']);
        assert(cur + s =~= cur);
        assert(seq!['\n'].drop_first() =~= Seq::<char>::empty());
        assert(seq![strip_cr(cur)] + Seq::<Seq<char>>::empty() =~= seq![strip_cr(cur)]);
        assert(lines_from(Seq::<char>::empty(), Seq::<char>::empty()) == Seq::<Seq<char>>::empty());
        let nl = seq!['\n'];
        assert(nl.len() == 1 && nl[0] == '\n');
        assert(nl.drop_first() =~= Seq::<char>::empty());
        assert(lines_from(seq!['\n'], cur) == seq![strip_cr(cur)] + lines_from(Seq::<char>::empty(), Seq::<char>::empty()));
    } else {
        let t = s + seq!['\n'];
        assert(t[0] == s[0]);
        assert(t.drop_first() =~= s.drop_first() + seq!['\n']);
        assert(!s.drop_first().contains('\n')) by {
            if s.drop_first().contains('\n') {
                let k = choose|k: int| 0 <= k < s.drop_first().len() && s.drop_first()[k] == '\n';
                assert(s[k + 1] == '\n');
            }
        }
        assert(s[0] != '\n') by {
            if s[0] == '\n' {
                assert(s.contains('\n'));
            }
        }
        lemma_lines_one(s.drop_first(), cur.push(s[0]));
        assert(cur.push(s[0]) + s.drop_first() =~= cur + s);
        assert(lines_from(t, cur) == lines_from(t.drop_first(), cur.push(s[0])));
        assert(lines_from(t.drop_first(), cur.push(s[0])) == seq![strip_cr(cur.push(s[0]) + s.drop_first())]);
    }
}

/// Lines split at a line break: the lines of a text that ends with one,
/// then those of what follows.
proof fn lemma_lines_split(a: Seq<char>, b: Seq<char>, cur: Seq<char>)
    requires a.len() > 0, a.last() == '\n',
    ensures lines_from(a + b, cur) == lines_from(a, cur) + lines_from(b, Seq::empty()),
    decreases a.len(),
{
    let c = a[0];
    assert((a + b)[0] == c);
    assert((a + b).drop_first() =~= a.drop_first() + b);
    if c == '\n' {
        if a.len() == 1 {
            assert(a.drop_first() + b =~= b);
            assert(a.drop_first() =~= Seq::<char>::empty());
            assert(seq![strip_cr(cur)] + Seq::<Seq<char>>::empty() =~= seq![strip_cr(cur)]);
        assert(lines_from(Seq::<char>::empty(), Seq::<char>::empty()) == Seq::<Seq<char>>::empty());
        let nl = seq!['\n'];
        assert(nl.len() == 1 && nl[0] == '\n');
        assert(nl.drop_first() =~= Seq::<char>::empty());
        assert(lines_from(seq!['\n'], cur) == seq![strip_cr(cur)] + lines_from(Seq::<char>::empty(), Seq::<char>::empty()));
        } else {
            lemma_lines_split(a.drop_first(), b, Seq::empty());
            assert(seq![strip_cr(cur)] + (lines_from(a.drop_first(), Seq::empty()) + lines_from(b, Seq::empty()))
                =~= (seq![strip_cr(cur)] + lines_from(a.drop_first(), Seq::empty())) + lines_from(b, Seq::empty()));
        }
    } else {
        lemma_lines_split(a.drop_first(), b, cur.push(c));
    }
}

/// The first space of a report body that begins with `w` and a space, `w`
/// holding none, is the one after `w`.
proof fn lemma_split_after_word(w: Seq<char>, m: Seq<char>)
    requires !w.contains(' '),
    ensures split_status(w + seq![' '] + m) == (w, m),
{
    let body = w + seq![' '] + m;
    let sp = seq![' '];
    assert forall|i: nat| i <= w.len() implies find_from(body, sp, i) == Some(w.len()) by {
        lemma_find_space(body, w, m, i);
    }
    assert(find_from(body, sp, 0) == Some(w.len()));
    assert(body.take(w.len() as int) =~= w);
    assert(body.skip(w.len() + 1int) =~= m);
}

/// The search for a space in `w + " " + m`, begun within `w`, finds the
/// one after `w`.
proof fn lemma_find_space(body: Seq<char>, w: Seq<char>, m: Seq<char>, i: nat)
    requires
        !w.contains(' '),
        body == w + seq![' '] + m,
        i <= w.len(),
    ensures find_from(body, seq![' '], i) == Some(w.len()),
    decreases w.len() - i,
{
    let sp = seq![' '];
    if i == w.len() {
        assert(body.subrange(i as int, i + 1int) =~= sp);
    } else {
        assert(body.subrange(i as int, i + 1int)[0] == w[i as int]);
        assert(w[i as int] != ' ') by {
            if w[i as int] == ' ' {
                assert(w.contains(' '));
            }
        }
        assert(body.subrange(i as int, i + 1int) != sp) by {
            assert(body.subrange(i as int, i + 1int)[0] != sp[0]);
        }
        lemma_find_space(body, w, m, i + 1);
    }
}

/// A word without spaces and a search for a space in it finds none.
proof fn lemma_no_space(w: Seq<char>, i: nat)
    requires !w.contains(' '), i <= w.len(),
    ensures find_from(w, seq![' '], i) is None,
    decreases w.len() - i,
{
    if i < w.len() {
        assert(w.subrange(i as int, i + 1int)[0] == w[i as int]);
        assert(w[i as int] != ' ') by {
            if w[i as int] == ' ' {
                assert(w.contains(' '));
            }
        }
        assert(w.subrange(i as int, i + 1int) != seq![' ']) by {
            assert(w.subrange(i as int, i + 1int)[0] != seq![' '][0]);
        }
        lemma_no_space(w, i + 1);
    }
}

/// A report that is the last line of a child's output reads back as what
/// it reports.
proof fn lemma_report_last_line(before: Seq<char>, r: Result<SpecOutcome, Seq<char>>)
    requires
        before.len() == 0 || before.last() == '\n',
        one_line(report_message(r)),
    ensures
        spec_child_result(before + spec_child_report(r) + seq!['\n']) == r,
{
    reveal_strlit("__TEST262_RESULT__ ");
    reveal_strlit("PASS");
    reveal_strlit("FAIL ");
    reveal_strlit("SKIP ");
    reveal_strlit("ERROR ");
    reveal_strlit("FAIL");
    reveal_strlit("SKIP");
    reveal_strlit("ERROR");
    assert("FAIL"@ != "PASS"@) by { assert("FAIL"@[0] != "PASS"@[0]); }
    assert("SKIP"@ != "PASS"@) by { assert("SKIP"@[0] != "PASS"@[0]); }
    assert("SKIP"@ != "FAIL"@) by { assert("SKIP"@[0] != "FAIL"@[0]); }
    let line = spec_child_report(r);
    let body = line.skip(result_marker().len() as int);
    assert(!line.contains('\n')) by {
        if line.contains('\n') {
            let k = choose|k: int| 0 <= k < line.len() && line[k] == '\n';
            if k >= result_marker().len() {
                match r {
                    Ok(SpecOutcome::Pass) => {},
                    Ok(SpecOutcome::Fail(m)) => { assert(m[k - 24] == '\n'); },
                    Ok(SpecOutcome::Skip(m)) => { assert(m[k - 24] == '\n'); },
                    Err(e) => { assert(e[k - 25] == '\n'); },
                }
            }
        }
    }
    assert(strip_cr(line) == line) by {
        match r {
            Ok(SpecOutcome::Pass) => {},
            Ok(SpecOutcome::Fail(m)) => { if m.len() > 0 { assert(line.last() == m.last()); } },
            Ok(SpecOutcome::Skip(m)) => { if m.len() > 0 { assert(line.last() == m.last()); } },
            Err(e) => { if e.len() > 0 { assert(line.last() == e.last()); } },
        }
    }
    let ls = lines_from(before + line + seq!['\n'], Seq::empty());
    if before.len() == 0 {
        assert(before + line + seq!['\n'] =~= line + seq!['\n']);
        lemma_lines_one(line, Seq::empty());
        assert(Seq::<char>::empty() + line =~= line);
        assert(ls == seq![line]);
        assert(ls.drop_last() =~= Seq::<Seq<char>>::empty());
    } else {
        assert(before + line + seq!['\n'] =~= before + (line + seq!['\n']));
        lemma_lines_split(before, line + seq!['\n'], Seq::empty());
        lemma_lines_one(line, Seq::empty());
        assert(Seq::<char>::empty() + line =~= line);
    }
    assert(ls.last() == line);
    let mk = result_marker();
    assert(line.take(mk.len() as int) =~= mk);
    assert(last_with_prefix(ls, mk) == Some(body));
    match r {
        Ok(SpecOutcome::Pass) => {
            assert(body =~= "PASS"@);
            assert(!body.contains(' ')) by {
                if body.contains(' ') {
                    let k = choose|k: int| 0 <= k < body.len() && body[k] == ' ';
                    assert(body[k] != ' ');
                }
            }
            lemma_no_space(body, 0);
            assert(split_status(body) == (body, Seq::<char>::empty()));
            assert(spec_child_result(before + line + seq!['\n']) == Ok::<SpecOutcome, Seq<char>>(SpecOutcome::Pass));
        },
        Ok(SpecOutcome::Fail(m)) => {
            assert(body =~= "FAIL"@ + seq![' '] + m);
            lemma_split_after_word("FAIL"@, m);
            assert(spec_child_result(before + line + seq!['\n']) == r);
        },
        Ok(SpecOutcome::Skip(m)) => {
            assert(body =~= "SKIP"@ + seq![' '] + m);
            lemma_split_after_word("SKIP"@, m);
            assert(spec_child_result(before + line + seq!['\n']) == r);
        },
        Err(e) => {
            assert(body =~= "ERROR"@ + seq![' '] + e);
            lemma_split_after_word("ERROR"@, e);
            assert(spec_child_result(before + line + seq!['\n']) == r);
        },
    }
}

/// Whether a line begins with the result marker.
pub open spec fn marked(l: Seq<char>) -> bool {
    result_marker().len() <= l.len() && l.take(result_marker().len() as int) == result_marker()
}

/// Whether no line of `text` begins with the result marker.
pub open spec fn no_marked_line(text: Seq<char>) -> bool {
    forall|i: int| 0 <= i < lines_from(text, Seq::empty()).len()
        ==> !marked(#[trigger] lines_from(text, Seq::empty())[i])
}

/// Lines after the last marked one do not change which one is last.
proof fn lemma_last_marked_skips(ls1: Seq<Seq<char>>, ls2: Seq<Seq<char>>)
    requires forall|i: int| 0 <= i < ls2.len() ==> !marked(#[trigger] ls2[i]),
    ensures last_with_prefix(ls1 + ls2, result_marker()) == last_with_prefix(ls1, result_marker()),
    decreases ls2.len(),
{
    if ls2.len() == 0 {
        assert(ls1 + ls2 =~= ls1);
    } else {
        let all = ls1 + ls2;
        assert(all.last() == ls2.last());
        assert(!marked(ls2[ls2.len() - 1]));
        assert(all.drop_last() =~= ls1 + ls2.drop_last());
        assert forall|i: int| 0 <= i < ls2.drop_last().len() implies !marked(#[trigger] ls2.drop_last()[i]) by {
            assert(ls2.drop_last()[i] == ls2[i]);
        }
        lemma_last_marked_skips(ls1, ls2.drop_last());
    }
}

/// A report reads back as what it reports: the parent reads back the
/// outcome of the child's report line when no later line of the child's
/// output carries the result marker, provided the message holds no line
/// break and does not end with a carriage return.
pub proof fn law_report_reads_back(before: Seq<char>, r: Result<SpecOutcome, Seq<char>>, after: Seq<char>)
    requires
        before.len() == 0 || before.last() == '\n',
        one_line(report_message(r)),
        no_marked_line(after),
    ensures
        spec_child_result(before + spec_child_report(r) + seq!['\n'] + after) == r,
{
    let head = before + spec_child_report(r) + seq!['\n'];
    lemma_report_last_line(before, r);
    lemma_lines_split(head, after, Seq::empty());
    let ls2 = lines_from(after, Seq::empty());
    assert forall|i: int| 0 <= i < ls2.len() implies !marked(#[trigger] ls2[i]) by {
        assert(!marked(lines_from(after, Seq::empty())[i]));
    }
    lemma_last_marked_skips(lines_from(head, Seq::empty()), ls2);
}

/// The bytes of a child's output, encoded as UTF-8, read back as the
/// outcome that its report line reports when no later line carries the
/// result marker.
pub proof fn law_report_bytes_read_back(before: Seq<char>, r: Result<SpecOutcome, Seq<char>>, after: Seq<char>)
    requires
        before.len() == 0 || before.last() == '\n',
        one_line(report_message(r)),
        no_marked_line(after),
    ensures
        valid_utf8(encode_utf8(before + spec_child_report(r) + seq!['\n'] + after)),
        spec_child_result(decode_utf8(encode_utf8(before + spec_child_report(r) + seq!['\n'] + after))) == r,
{
    let text = before + spec_child_report(r) + seq!['\n'] + after;
    vstd::utf8::encode_utf8_valid_utf8(text);
    vstd::utf8::encode_utf8_decode_utf8(text);
    law_report_reads_back(before, r, after);
}

/// How many tests passed, failed and were skipped so far.
#[derive(Debug, Clone, Copy, PartialEq, Eq)]
pub struct Tally {
    pub passed: u64,
    pub failed: u64,
    pub skipped: u64,
}

/// A tally of no tests.
pub fn empty_tally() -> (r: Tally)
    ensures r.passed == 0 && r.failed == 0 && r.skipped == 0,
{
    Tally { passed: 0, failed: 0, skipped: 0 }
}

/// Whether an outcome counts as a failure: a failed test, or one the
/// runner could not run.
pub open spec fn is_failure(r: Result<SpecOutcome, Seq<char>>) -> bool {
    r matches Ok(SpecOutcome::Fail(_)) || r is Err
}

/// The line printed for a test at `path` with outcome `r`.
pub open spec fn spec_outcome_line(path: Seq<char>, r: Result<SpecOutcome, Seq<char>>) -> Seq<char> {
    match r {
        Ok(SpecOutcome::Pass) => "PASS "@ + path,
        Ok(SpecOutcome::Fail(m)) => "FAIL "@ + path + ": "@ + m,
        Ok(SpecOutcome::Skip(m)) => "SKIP "@ + path + ": "@ + m,
        Err(e) => "FAIL "@ + path + ": "@ + e,
    }
}

/// The tally with the outcome `r` counted.
pub open spec fn counted(t: Tally, r: Result<SpecOutcome, Seq<char>>) -> Tally {
    match r {
        Ok(SpecOutcome::Pass) => Tally { passed: (t.passed + 1) as u64, ..t },
        Ok(SpecOutcome::Skip(_)) => Tally { skipped: (t.skipped + 1) as u64, ..t },
        _ => Tally { failed: (t.failed + 1) as u64, ..t },
    }
}

/// Counts the outcome of the test at `path` into `tally`, and gives the
/// line to print for it and whether the run stops after it: on a failure
/// when `fail_fast` is set.
pub fn record_outcome(tally: &mut Tally, path: &str, outcome: &Result<TestOutcome, String>, fail_fast: bool) -> (r: (String, bool))
    requires
        old(tally).passed < u64::MAX,
        old(tally).failed < u64::MAX,
        old(tally).skipped < u64::MAX,
    ensures
        *final(tally) == counted(*old(tally), result_view(*outcome)),
        r.0@ == spec_outcome_line(path@, result_view(*outcome)),
        r.1 == (fail_fast && is_failure(result_view(*outcome))),
{
    match outcome {
        Ok(TestOutcome::Pass) => {
            tally.passed = tally.passed + 1;
            let mut line = String::from_str("PASS ");
            line.append(path);
            (line, false)
        },
        Ok(TestOutcome::Skip(m)) => {
            tally.skipped = tally.skipped + 1;
            let mut line = String::from_str("SKIP ");
            line.append(path);
            line.append(": ");
            line.append(m.as_str());
            (line, false)
        },
        Ok(TestOutcome::Fail(m)) => {
            tally.failed = tally.failed + 1;
            let mut line = String::from_str("FAIL ");
            line.append(path);
            line.append(": ");
            line.append(m.as_str());
            (line, fail_fast)
        },
        Err(e) => {
            tally.failed = tally.failed + 1;
            let mut line = String::from_str("FAIL ");
            line.append(path);
            line.append(": ");
            line.append(e.as_str());
            (line, fail_fast)
        },
    }
}

/// The last line of a run: how many tests passed, failed and were skipped.
pub fn summary_line(tally: &Tally) -> (r: String)
    ensures
        r@ == "summary: "@ + radix_text(tally.passed as int, 10) + " passed, "@
            + radix_text(tally.failed as int, 10) + " failed, "@
            + radix_text(tally.skipped as int, 10) + " skipped"@,
{
    let mut line = String::from_str("summary: ");
    let p = decimal_text(tally.passed);
    line.append(p.as_str());
    line.append(" passed, ");
    let f = decimal_text(tally.failed);
    line.append(f.as_str());
    line.append(" failed, ");
    let k = decimal_text(tally.skipped);
    line.append(k.as_str());
    line.append(" skipped");
    line
}

/// The exit status of a run: `1` when a test failed, else `0`.
pub fn exit_status(tally: &Tally) -> (r: i32)
    ensures r == (if tally.failed > 0 { 1i32 } else { 0i32 }),
{
    if tally.failed > 0 { 1 } else { 0 }
}

/// Whether `pat` occurs in `s`.
fn str_contains(s: &str, pat: &str) -> (r: bool)
    ensures r == occurs_from(s@, pat@, 0),
{
    let v = chars_of(s);
    let p = chars_of(pat);
    find_chars(&v, &p, 0).is_some()
}

/// Whether a file is a test: its extension is `js` and its name does not
/// contain `_FIXTURE`.
pub fn is_test_file(extension: Option<&str>, file_name: Option<&str>) -> (r: bool)
    ensures
        r == (extension matches Some(e) && e@ == "js"@
            && !(file_name matches Some(n) && occurs_from(n@, "_FIXTURE"@, 0))),
{
    let js = match extension {
        Some(e) => str_eq(e, "js"),
        None => false,
    };
    let fixture = match file_name {
        Some(n) => str_contains(n, "_FIXTURE"),
        None => false,
    };
    js && !fixture
}


pub open spec fn is_digit(c: char) -> bool {
    '0' <= c && c <= '9'
}

/// The number that the decimal digits `d` stand for.
pub open spec fn decimal_value(d: Seq<char>) -> nat
    decreases d.len(),
{
    if d.len() == 0 {
        0
    } else {
        decimal_value(d.drop_last()) * 10 + (d.last() as nat - '0' as nat) as nat
    }
}

/// Whether every character of `d` is an ASCII digit.
pub open spec fn all_digits(d: Seq<char>) -> bool {
    forall|i: int| 0 <= i < d.len() ==> is_digit(#[trigger] d[i])
}

/// The text of a number without its leading `+`, if it has one.
pub open spec fn unsigned_digits(s: Seq<char>) -> Seq<char> {
    if s.len() > 0 && s[0] == '+' { s.drop_first() } else { s }
}

/// The value of `s` as `u64::from_str` reads it: an optional `+`, then one
/// or more ASCII digits, the number at most `u64::MAX`.
pub open spec fn spec_parse_u64(s: Seq<char>) -> Option<nat> {
    let d = unsigned_digits(s);
    if d.len() == 0 || !all_digits(d) {
        None
    } else if decimal_value(d) > u64::MAX {
        None
    } else {
        Some(decimal_value(d))
    }
}

/// A longer run of digits is worth at least as much.
proof fn lemma_decimal_monotone(d: Seq<char>, i: int)
    requires
        0 <= i <= d.len(),
        forall|k: int| 0 <= k < d.len() ==> is_digit(#[trigger] d[k]),
    ensures decimal_value(d.take(i)) <= decimal_value(d),
    decreases d.len() - i,
{
    if i < d.len() {
        lemma_decimal_monotone(d, i + 1);
        assert(d.take(i + 1).drop_last() =~= d.take(i));
    } else {
        assert(d.take(i) =~= d);
    }
}

/// Reads a `u64` written in decimal, with an optional `+` in front.
pub fn parse_u64(s: &str) -> (r: Option<u64>)
    ensures
        match r {
            Some(v) => spec_parse_u64(s@) == Some(v as nat),
            None => spec_parse_u64(s@) is None,
        },
{
    let v = chars_of(s);
    let start: usize = if v.len() > 0 && v[0] == '+' { 1 } else { 0 };
    let ghost d = unsigned_digits(s@);
    assert(d =~= v@.skip(start as int));
    if start == v.len() {
        return None;
    }
    let mut value: u64 = 0;
    let mut i = start;
    while i < v.len()
        invariant
            start <= i <= v@.len(),
            v@ == s@,
            d == unsigned_digits(s@),
            d == v@.skip(start as int),
            forall|k: int| start <= k < i ==> is_digit(#[trigger] v@[k]),
            value as nat == decimal_value(d.take(i - start)),
        decreases v.len() - i,
    {
        let c = v[i];
        if !('0' <= c && c <= '9') {
            assert(d[(i - start) as int] == v@[i as int]);
            assert(!is_digit(d[(i - start) as int]));
            assert(0 <= i - start < d.len());
            assert(!all_digits(d));
            return None;
        }
        assert(d.take(i + 1 - start).drop_last() =~= d.take(i - start));
        assert(d.take(i + 1 - start).last() == c);
        let digit: u64 = if c == '0' { 0 } else if c == '1' { 1 } else if c == '2' { 2 } else if c == '3' { 3 }
            else if c == '4' { 4 } else if c == '5' { 5 } else if c == '6' { 6 } else if c == '7' { 7 }
            else if c == '8' { 8 } else { 9 };
        assert(digit as nat == (c as nat - '0' as nat) as nat);
        if value > (u64::MAX - digit) / 10 {
            proof {
                assert(value * 10 + digit > u64::MAX) by (nonlinear_arith)
                    requires value > (u64::MAX - digit) / 10, digit <= 9;
                assert(decimal_value(d.take(i + 1 - start)) > u64::MAX);
                if all_digits(d) {
                    lemma_decimal_monotone(d, i + 1 - start);
                }
            }
            return None;
        }
        value = value * 10 + digit;
        i = i + 1;
    }
    assert(d.take(v.len() - start) =~= d);
    Some(value)
}

/// What the command line of the runner asks for.
#[derive(Debug, Clone, PartialEq)]
pub enum CliRequest {
    /// Print the usage and stop.
    Help,
    /// Run the tests.
    Run(CliOptions),
}

/// The options of a run of the runner.
#[derive(Debug, Clone, PartialEq)]
pub struct CliOptions {
    pub test262_dir: String,
    pub paths: Vec<String>,
    pub skip_features: Vec<String>,
    pub fail_fast: bool,
    pub timeout_ms: u64,
    pub child: bool,
}

/// The options as values.
pub struct SpecCliOptions {
    pub test262_dir: Seq<char>,
    pub paths: Seq<Seq<char>>,
    pub skip_features: Seq<Seq<char>>,
    pub fail_fast: bool,
    pub timeout_ms: nat,
    pub child: bool,
}

impl View for CliOptions {
    type V = SpecCliOptions;

    open spec fn view(&self) -> SpecCliOptions {
        SpecCliOptions {
            test262_dir: self.test262_dir@,
            paths: texts(self.paths@),
            skip_features: texts(self.skip_features@),
            fail_fast: self.fail_fast,
            timeout_ms: self.timeout_ms as nat,
            child: self.child,
        }
    }
}

/// `set` with `x` added, unless it holds it.
pub open spec fn add_once(set: Seq<Seq<char>>, x: Seq<char>) -> Seq<Seq<char>> {
    if set.contains(x) { set } else { set.push(x) }
}

/// Reading the command line `args` from index `i` on, with the options
/// read so far: `Ok(None)` for help, the options, or the error message.
pub open spec fn cli_scan(args: Seq<Seq<char>>, i: nat, st: SpecCliOptions) -> Result<Option<SpecCliOptions>, Seq<char>>
    decreases args.len() - i,
{
    if i >= args.len() {
        if st.paths.len() == 0 {
            Err("at least one test file or directory is required"@)
        } else {
            Ok(Some(st))
        }
    } else {
        let a = args[i as int];
        if a == "--help"@ || a == "-h"@ {
            Ok(None)
        } else if a == "--test262-dir"@ {
            if i + 1 < args.len() {
                cli_scan(args, i + 2, SpecCliOptions { test262_dir: args[i + 1int], ..st })
            } else {
                Err("--test262-dir requires a directory"@)
            }
        } else if a == "--skip-feature"@ {
            if i + 1 < args.len() {
                cli_scan(args, i + 2, SpecCliOptions { skip_features: add_once(st.skip_features, args[i + 1int]), ..st })
            } else {
                Err("--skip-feature requires a feature name"@)
            }
        } else if a == "--fail-fast"@ {
            cli_scan(args, i + 1, SpecCliOptions { fail_fast: true, ..st })
        } else if a == "--timeout-ms"@ {
            if i + 1 < args.len() && spec_parse_u64(args[i + 1int]) is Some && spec_parse_u64(args[i + 1int])->0 != 0 {
                cli_scan(args, i + 2, SpecCliOptions { timeout_ms: spec_parse_u64(args[i + 1int])->0, ..st })
            } else {
                Err("--timeout-ms requires a positive integer"@)
            }
        } else if a == "--child"@ {
            cli_scan(args, i + 1, SpecCliOptions { child: true, ..st })
        } else if a.len() > 0 && a[0] == '-' {
            Err("unknown option "@ + a)
        } else {
            cli_scan(args, i + 1, SpecCliOptions { paths: st.paths.push(a), ..st })
        }
    }
}

/// The options before any argument is read: the given directory, no
/// paths or skipped features, a timeout of two seconds.
pub open spec fn cli_defaults(dir: Seq<char>) -> SpecCliOptions {
    SpecCliOptions {
        test262_dir: dir,
        paths: Seq::empty(),
        skip_features: Seq::empty(),
        fail_fast: false,
        timeout_ms: 2000,
        child: false,
    }
}

/// Adding a name once keeps a list free of repeats.
proof fn lemma_add_once_distinct(set: Seq<Seq<char>>, x: Seq<char>)
    requires set.no_duplicates(),
    ensures add_once(set, x).no_duplicates(),
{
    if !set.contains(x) {
        let out = set.push(x);
        assert forall|i: int, j: int| 0 <= i < out.len() && 0 <= j < out.len() && i != j
            implies out[i] != out[j] by {
            if i == set.len() {
                assert(out[j] == set[j]);
            } else if j == set.len() {
                assert(out[i] == set[i]);
            }
        }
    }
}

/// Reading on from options whose skipped features hold no repeats gives
/// options whose skipped features hold none.
proof fn lemma_cli_scan_distinct(args: Seq<Seq<char>>, i: nat, st: SpecCliOptions)
    requires st.skip_features.no_duplicates(),
    ensures cli_scan(args, i, st) matches Ok(Some(o)) ==> o.skip_features.no_duplicates(),
    decreases args.len() - i,
{
    if i < args.len() {
        let a = args[i as int];
        if a == "--help"@ || a == "-h"@ {
        } else if a == "--test262-dir"@ {
            if i + 1 < args.len() {
                lemma_cli_scan_distinct(args, i + 2, SpecCliOptions { test262_dir: args[i + 1int], ..st });
            }
        } else if a == "--skip-feature"@ {
            if i + 1 < args.len() {
                lemma_add_once_distinct(st.skip_features, args[i + 1int]);
                lemma_cli_scan_distinct(args, i + 2,
                    SpecCliOptions { skip_features: add_once(st.skip_features, args[i + 1int]), ..st });
            }
        } else if a == "--fail-fast"@ {
            lemma_cli_scan_distinct(args, i + 1, SpecCliOptions { fail_fast: true, ..st });
        } else if a == "--timeout-ms"@ {
            if i + 1 < args.len() && spec_parse_u64(args[i + 1int]) is Some {
                lemma_cli_scan_distinct(args, i + 2,
                    SpecCliOptions { timeout_ms: spec_parse_u64(args[i + 1int])->0, ..st });
            }
        } else if a == "--child"@ {
            lemma_cli_scan_distinct(args, i + 1, SpecCliOptions { child: true, ..st });
        } else if !(a.len() > 0 && a[0] == '-') {
            lemma_cli_scan_distinct(args, i + 1, SpecCliOptions { paths: st.paths.push(a), ..st });
        }
    }
}

/// A feature given to `--skip-feature` more than once is kept once: the
/// skipped features of a command line hold no repeats.
pub proof fn law_skip_features_distinct(args: Seq<Seq<char>>, dir: Seq<char>)
    ensures
        cli_scan(args, 0, cli_defaults(dir)) matches Ok(Some(o)) ==> o.skip_features.no_duplicates(),
{
    lemma_cli_scan_distinct(args, 0, cli_defaults(dir));
}

/// Whether the strings of `v` hold `s`, by their text.
fn holds(v: &Vec<String>, s: &str) -> (r: bool)
    ensures r == texts(v@).contains(s@),
{
    any_eq(v, s)
}

/// Reads the runner's command line (without the program name), starting
/// from the directory `current_dir` for the Test262 checkout.
pub fn parse_arguments(args: &Vec<String>, current_dir: String) -> (r: Result<CliRequest, String>)
    ensures
        match (r, cli_scan(texts(args@), 0, cli_defaults(current_dir@))) {
            (Ok(CliRequest::Help), Ok(None)) => true,
            (Ok(CliRequest::Run(o)), Ok(Some(p))) => o@ == p,
            (Err(e), Err(f)) => e@ == f,
            _ => false,
        },
{
    let ghost a = texts(args@);
    let mut opts = CliOptions {
        test262_dir: current_dir,
        paths: Vec::new(),
        skip_features: Vec::new(),
        fail_fast: false,
        timeout_ms: 2000,
        child: false,
    };
    assert(opts@.paths =~= Seq::<Seq<char>>::empty());
    assert(opts@.skip_features =~= Seq::<Seq<char>>::empty());
    let mut i: usize = 0;
    while i < args.len()
        invariant
            a == texts(args@),
            i <= args.len(),
            cli_scan(a, i as nat, opts@) == cli_scan(a, 0, cli_defaults(current_dir@)),
        decreases args.len() - i,
    {
        let arg = args[i].as_str();
        assert(a[i as int] == arg@);
        if str_eq(arg, "--help") || str_eq(arg, "-h") {
            return Ok(CliRequest::Help);
        } else if str_eq(arg, "--test262-dir") {
            if i + 1 < args.len() {
                assert(a[i + 1] == args@[i + 1]@);
                opts.test262_dir = args[i + 1].clone();
                i = i + 2;
            } else {
                return Err(String::from_str("--test262-dir requires a directory"));
            }
        } else if str_eq(arg, "--skip-feature") {
            if i + 1 < args.len() {
                assert(a[i + 1] == args@[i + 1]@);
                let feature = args[i + 1].as_str();
                if !holds(&opts.skip_features, feature) {
                    let ghost before = opts.skip_features@;
                    opts.skip_features.push(String::from_str(feature));
                    assert(texts(opts.skip_features@) =~= texts(before).push(feature@));
                }
                i = i + 2;
            } else {
                return Err(String::from_str("--skip-feature requires a feature name"));
            }
        } else if str_eq(arg, "--fail-fast") {
            opts.fail_fast = true;
            i = i + 1;
        } else if str_eq(arg, "--timeout-ms") {
            let parsed = if i + 1 < args.len() {
                assert(a[i + 1] == args@[i + 1]@);
                parse_u64(args[i + 1].as_str())
            } else {
                None
            };
            match parsed {
                Some(ms) if ms != 0 => {
                    opts.timeout_ms = ms;
                    i = i + 2;
                },
                _ => {
                    return Err(String::from_str("--timeout-ms requires a positive integer"));
                },
            }
        } else if str_eq(arg, "--child") {
            opts.child = true;
            i = i + 1;
        } else if arg.unicode_len() > 0 && arg.get_char(0) == '-' {
            let mut m = String::from_str("unknown option ");
            m.append(arg);
            return Err(m);
        } else {
            let ghost before = opts.paths@;
            opts.paths.push(String::from_str(arg));
            assert(texts(opts.paths@) =~= texts(before).push(arg@));
            i = i + 1;
        }
    }
    if opts.paths.len() == 0 {
        return Err(String::from_str("at least one test file or directory is required"));
    }
    Ok(CliRequest::Run(opts))
}

} // verus!
