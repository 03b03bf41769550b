//! Narrowing a list of options to one, from a hint or by asking the operator.

use crate::prelude::Error;
use crate::seqs::lemma_filter_push;
use crate::teleport::{host_views, label_summary, Host, HostView, Hosts};
use crate::text::{pad, padded, texts};
use fuzzy_matcher::skim::SkimMatcherV2;
use fuzzy_matcher::FuzzyMatcher;
use vstd::prelude::*;
use vstd::string::*;
use vstd::utf8::encode_utf8;

verus! {

/// A character with the ASCII capital letters folded onto the small ones, as a number.
pub open spec fn ascii_folded(c: char) -> int {
    if 'A' <= c <= 'Z' {
        c as int + 32
    } else {
        c as int
    }
}

/// Whether the characters of `pattern` stand in `choice` in their order, other characters
/// between them or not, ASCII letters compared without regard to case. Each character of the
/// pattern is taken at the first place of `choice` that can hold it.
pub open spec fn fuzzy_matches(choice: Seq<char>, pattern: Seq<char>) -> bool
    decreases choice.len(),
{
    if pattern.len() == 0 {
        true
    } else if choice.len() == 0 {
        false
    } else if ascii_folded(choice[0]) == ascii_folded(pattern[0]) {
        fuzzy_matches(choice.skip(1), pattern.skip(1))
    } else {
        fuzzy_matches(choice.skip(1), pattern)
    }
}

/// Whether `at` names, in rising order, places of `choice` that hold the characters of
/// `pattern` one by one, ASCII letters compared without regard to case.
pub open spec fn embeds(at: Seq<int>, pattern: Seq<char>, choice: Seq<char>) -> bool {
    &&& at.len() == pattern.len()
    &&& forall|k: int|
        0 <= k < at.len() ==> 0 <= #[trigger] at[k] < choice.len() && ascii_folded(choice[at[k]])
            == ascii_folded(pattern[k])
    &&& forall|j: int, k: int| 0 <= j < k < at.len() ==> at[j] < at[k]
}

/// A pattern matches a choice exactly when its characters can be found in the choice in
/// their order: taking each at the first place that can hold it misses no way to find them.
pub proof fn lemma_fuzzy_matches_embedding(choice: Seq<char>, pattern: Seq<char>)
    ensures
        fuzzy_matches(choice, pattern) <==> exists|at: Seq<int>| embeds(at, pattern, choice),
    decreases choice.len(),
{
    if pattern.len() == 0 {
        assert(embeds(Seq::<int>::empty(), pattern, choice));
    } else if choice.len() == 0 {
        assert forall|at: Seq<int>| !embeds(at, pattern, choice) by {
            if embeds(at, pattern, choice) {
                assert(0 <= at[0] < choice.len());
            }
        }
    } else {
        let taken = ascii_folded(choice[0]) == ascii_folded(pattern[0]);
        let rest = choice.skip(1);
        let left = if taken {
            pattern.skip(1)
        } else {
            pattern
        };
        lemma_fuzzy_matches_embedding(rest, left);
        if fuzzy_matches(choice, pattern) {
            let at = choose|at: Seq<int>| embeds(at, left, rest);
            let moved = at.map_values(|p: int| p + 1);
            if taken {
                let all = seq![0int] + moved;
                assert forall|k: int| 0 <= k < all.len() implies 0 <= #[trigger] all[k] < choice.len()
                    && ascii_folded(choice[all[k]]) == ascii_folded(pattern[k]) by {
                    if k > 0 {
                        assert(all[k] == at[k - 1] + 1);
                        assert(rest[at[k - 1]] == choice[all[k]]);
                        assert(left[k - 1] == pattern[k]);
                    }
                }
                assert forall|j: int, k: int| 0 <= j < k < all.len() implies all[j] < all[k] by {
                    assert(all[k] == at[k - 1] + 1);
                    if j > 0 {
                        assert(all[j] == at[j - 1] + 1);
                    }
                }
                assert(embeds(all, pattern, choice));
            } else {
                assert forall|k: int| 0 <= k < moved.len() implies 0 <= #[trigger] moved[k]
                    < choice.len() && ascii_folded(choice[moved[k]]) == ascii_folded(pattern[k]) by {
                    assert(rest[at[k]] == choice[moved[k]]);
                }
                assert(embeds(moved, pattern, choice));
            }
        }
        if exists|at: Seq<int>| embeds(at, pattern, choice) {
            let at = choose|at: Seq<int>| embeds(at, pattern, choice);
            let later = if taken {
                at.skip(1)
            } else {
                at
            };
            assert forall|k: int| 0 <= k < later.len() implies #[trigger] later[k] >= 1 by {
                if taken {
                    assert(later[k] == at[k + 1]);
                    assert(at[0] < at[k + 1]);
                } else {
                    if k > 0 {
                        assert(at[0] < at[k]);
                    }
                    assert(at[0] != 0);
                }
            }
            let back = later.map_values(|p: int| p - 1);
            assert forall|k: int| 0 <= k < back.len() implies 0 <= #[trigger] back[k] < rest.len()
                && ascii_folded(rest[back[k]]) == ascii_folded(left[k]) by {
                assert(later[k] >= 1);
                assert(rest[back[k]] == choice[later[k]]);
                if taken {
                    assert(later[k] == at[k + 1]);
                    assert(left[k] == pattern[k + 1]);
                }
            }
            assert forall|j: int, k: int| 0 <= j < k < back.len() implies back[j] < back[k] by {
                if taken {
                    assert(later[j] == at[j + 1]);
                    assert(later[k] == at[k + 1]);
                }
            }
            assert(embeds(back, left, rest));
        }
    }
}

/// `fuzzy_matcher::skim::SkimMatcherV2::fuzzy_match` on a matcher made by `default()` and
/// `ignore_case()`. It gives a score exactly when `pattern` is empty or its characters are
/// found in `choice` from left to right, compared by `char::eq_ignore_ascii_case`. Nothing
/// is claimed of the score itself.
#[verifier::external_body]
fn fuzzy_match(choice: &str, pattern: &str) -> (score: Option<i64>)
    ensures
        score is Some <==> fuzzy_matches(choice@, pattern@),
{
    SkimMatcherV2::default().ignore_case().fuzzy_match(choice, pattern)
}

/// The predicate of being the place of an option that `pattern` matches.
pub open spec fn hit_at(options: Seq<Seq<char>>, pattern: Seq<char>) -> spec_fn(int) -> bool {
    |i: int| fuzzy_matches(options[i], pattern)
}

/// The places of the options that `pattern` matches, in rising order.
pub open spec fn matching(options: Seq<Seq<char>>, pattern: Seq<char>) -> Seq<int> {
    Seq::new(options.len(), |i: int| i).filter(hit_at(options, pattern))
}

/// The places of a vector as the contracts count them.
pub open spec fn places(found: Seq<usize>) -> Seq<int> {
    found.map_values(|i: usize| i as int)
}

/// The places of the options that `hint` matches, in rising order.
pub fn narrow(options: &Vec<String>, hint: &str) -> (found: Vec<usize>)
    ensures
        places(found@) == matching(texts(options@), hint@),
        forall|k: int| 0 <= k < found@.len() ==> #[trigger] found@[k] < options@.len(),
{
    let ghost all = Seq::new(options@.len(), |i: int| i);
    let ghost hit = hit_at(texts(options@), hint@);
    let mut found: Vec<usize> = Vec::new();
    let mut i: usize = 0;
    assert(all.take(0).filter(hit) =~= Seq::<int>::empty()) by {
        reveal(Seq::filter);
    }
    while i < options.len()
        invariant
            i <= options.len(),
            all == Seq::new(options@.len(), |i: int| i),
            hit == hit_at(texts(options@), hint@),
            places(found@) == all.take(i as int).filter(hit),
            forall|k: int| 0 <= k < found@.len() ==> #[trigger] found@[k] < i,
        decreases options.len() - i,
    {
        proof {
            assert(all.take(i + 1) == all.take(i as int).push(i as int));
            lemma_filter_push(all.take(i as int), i as int, hit);
        }
        if fuzzy_match(options[i].as_str(), hint).is_some() {
            let ghost before = found@;
            found.push(i);
            assert(places(found@) == places(before).push(i as int));
        }
        i += 1;
    }
    assert(all.take(i as int) == all);
    found
}

/// What the interactive picker is opened with.
#[derive(Debug)]
pub struct Prompt {
    /// The text shown above the list.
    pub message: String,
    /// The options shown, all of them.
    pub items: Vec<String>,
    /// The text that the filter field starts with.
    pub initial_text: String,
    /// The place of the option that is highlighted at the start.
    pub default: usize,
}

/// What the selector has decided.
#[derive(Debug)]
pub enum Step {
    /// The option at this place is selected; the operator is not asked.
    Done(usize),
    /// The operator is to pick from the list.
    Ask(Prompt),
}

/// What follows from the operator's answer.
#[derive(Debug, PartialEq, Eq, Structural)]
pub enum Outcome {
    /// The option at this place is selected.
    Selected(usize),
    /// The program ends at once with this exit code.
    Exit(i32),
}

/// What `select` owes for a list of options and a hint: without options `EmptyList`; with a
/// hint that matches no option `NoMatch`; with a hint that matches exactly one option that
/// option's place; else, without a hint or with one that matches several options, the
/// prompt over all options, seeded with the hint, the first option highlighted.
pub open spec fn selects(
    step: Result<Step, Error>,
    message: Seq<char>,
    options: Seq<Seq<char>>,
    hint: Seq<char>,
) -> bool {
    match step {
        Err(Error::EmptyList) => options.len() == 0,
        Err(Error::NoMatch) => options.len() > 0 && hint.len() > 0 && matching(
            options,
            hint,
        ).len() == 0,
        Ok(Step::Done(i)) => options.len() > 0 && hint.len() > 0 && matching(options, hint)
            == seq![i as int],
        Ok(Step::Ask(prompt)) => {
            &&& options.len() > 0
            &&& hint.len() == 0 || matching(options, hint).len() >= 2
            &&& prompt.message@ == message
            &&& texts(prompt.items@) == options
            &&& prompt.initial_text@ == hint
            &&& prompt.default == 0
        },
        Err(_) => false,
    }
}

/// Copies of the strings of `options`.
fn copy_of(options: &Vec<String>) -> (items: Vec<String>)
    ensures
        texts(items@) == texts(options@),
{
    let mut items: Vec<String> = Vec::new();
    let mut i: usize = 0;
    while i < options.len()
        invariant
            i <= options.len(),
            texts(items@) == texts(options@).take(i as int),
        decreases options.len() - i,
    {
        items.push(options[i].clone());
        assert(texts(options@).take(i + 1) == texts(options@).take(i as int).push(options@[i as int]@));
        i += 1;
    }
    assert(texts(options@).take(i as int) == texts(options@));
    items
}

/// Decides on a selection from `options`, as far as the hint `start_value` allows: see
/// `selects`. Where the hint settles it the operator is not asked.
pub fn select(message: &str, options: &Vec<String>, start_value: &str) -> (step: Result<Step, Error>)
    ensures
        selects(step, message@, texts(options@), start_value@),
        options@.len() == 0 ==> step == Err::<Step, Error>(Error::EmptyList),
        options@.len() > 0 && start_value@.len() == 0 ==> step is Ok && step->Ok_0 is Ask,
        options@.len() > 0 && start_value@.len() > 0 && matching(
            texts(options@),
            start_value@,
        ).len() == 1 ==> step is Ok && step->Ok_0 is Done && step->Ok_0->Done_0 == matching(
            texts(options@),
            start_value@,
        )[0],
        step is Ok && step->Ok_0 is Done ==> step->Ok_0->Done_0 < options@.len(),
{
    if options.len() == 0 {
        return Err(Error::EmptyList);
    }
    if start_value.unicode_len() > 0 {
        let found = narrow(options, start_value);
        if found.len() == 1 {
            assert(places(found@) =~= seq![found@[0] as int]);
            return Ok(Step::Done(found[0]));
        }
        if found.len() == 0 {
            return Err(Error::NoMatch);
        }
    }
    Ok(
        Step::Ask(
            Prompt {
                message: message.to_owned(),
                items: copy_of(options),
                initial_text: start_value.to_owned(),
                default: 0,
            },
        ),
    )
}

/// What follows from the picker's answer: the place that the operator picked is selected;
/// where the operator left without picking, the program ends with exit code 0.
pub fn resolve(answer: Option<usize>) -> (outcome: Outcome)
    ensures
        outcome == match answer {
            Some(i) => Outcome::Selected(i),
            None => Outcome::Exit(0),
        },
{
    match answer {
        Some(i) => Outcome::Selected(i),
        None => Outcome::Exit(0),
    }
}

/// The option at the place `index`, where there is one.
pub fn select_str(options: &Vec<String>, index: usize) -> (option: Option<String>)
    ensures
        index < options@.len() ==> option is Some && option->0@ == options@[index as int]@,
        index >= options@.len() ==> option is None,
{
    if index < options.len() {
        Some(options[index].clone())
    } else {
        None
    }
}

/// The hosts to select from and the hint to select by.
#[derive(Debug)]
pub struct SelectArgs {
    pub hosts: Hosts,
    pub start_value: String,
}

/// The number of bytes that the text takes in UTF-8.
pub open spec fn utf8_len(s: Seq<char>) -> nat {
    encode_utf8(s).len()
}

/// The number of bytes of the longest hostname, 0 without hosts.
pub open spec fn longest_name(hosts: Seq<HostView>) -> nat
    decreases hosts.len(),
{
    if hosts.len() == 0 {
        0
    } else if utf8_len(hosts.last().spec.hostname) > longest_name(hosts.drop_last()) {
        utf8_len(hosts.last().spec.hostname)
    } else {
        longest_name(hosts.drop_last())
    }
}

/// The width to which the hostnames are padded: that of the longest hostname, in bytes; 20
/// where there is no host.
pub open spec fn name_width(hosts: Seq<HostView>) -> nat {
    if hosts.len() == 0 {
        20
    } else {
        longest_name(hosts)
    }
}

/// How a host is shown in the list: its hostname padded on the left to `width` characters,
/// a space, and its label summary in square brackets.
pub open spec fn host_line(host: HostView, width: nat) -> Seq<char> {
    padded(host.spec.hostname, width) + " ["@ + label_summary(host.metadata.labels) + "]"@
}

/// How the hosts are shown in the list, each padded to the width of the longest hostname.
pub open spec fn host_lines(hosts: Seq<HostView>) -> Seq<Seq<char>> {
    hosts.map_values(|h: HostView| host_line(h, name_width(hosts)))
}

/// The width to which the hostnames of `hosts` are padded: see `name_width`.
pub fn display_width(hosts: &Hosts) -> (width: usize)
    ensures
        width == name_width(host_views(hosts@)),
{
    if hosts.len() == 0 {
        return 20;
    }
    let mut width: usize = 0;
    let mut i: usize = 0;
    while i < hosts.len()
        invariant
            i <= hosts.len(),
            width == longest_name(host_views(hosts@).take(i as int)),
        decreases hosts.len() - i,
    {
        assert(host_views(hosts@).take(i + 1).drop_last() == host_views(hosts@).take(i as int));
        assert(host_views(hosts@).take(i + 1).last() == hosts@[i as int]@);
        let len = hosts[i].name().as_bytes().len();
        if len > width {
            width = len;
        }
        i += 1;
    }
    assert(host_views(hosts@).take(i as int) == host_views(hosts@));
    width
}

/// The lines under which `hosts` are offered: see `host_lines`.
pub fn display_lines(hosts: &Hosts) -> (lines: Vec<String>)
    ensures
        texts(lines@) == host_lines(host_views(hosts@)),
{
    let width = display_width(hosts);
    let mut lines: Vec<String> = Vec::new();
    let mut i: usize = 0;
    while i < hosts.len()
        invariant
            i <= hosts.len(),
            width == name_width(host_views(hosts@)),
            texts(lines@) == host_lines(host_views(hosts@)).take(i as int),
        decreases hosts.len() - i,
    {
        let host = &hosts[i];
        let mut line = pad(host.name(), width);
        line.append(" [");
        line.append(host.to_string().as_str());
        line.append("]");
        assert(line@ == host_line(host@, width as nat));
        let ghost before = lines@;
        lines.push(line);
        assert(texts(lines@) == texts(before).push(line@));
        assert(host_lines(host_views(hosts@)).take(i + 1) == host_lines(host_views(hosts@)).take(
            i as int,
        ).push(host_line(host@, width as nat)));
        i += 1;
    }
    assert(host_lines(host_views(hosts@)).take(i as int) == host_lines(host_views(hosts@)));
    lines
}

/// Decides on a selection among the hosts of `args`, shown as `host_lines` has them, from the
/// hint of `args`: see `selects`. The prompt has no message.
pub fn select_teleport_host(args: &SelectArgs) -> (step: Result<Step, Error>)
    ensures
        selects(step, ""@, host_lines(host_views(args.hosts@)), args.start_value@),
        args.hosts@.len() == 0 ==> step == Err::<Step, Error>(Error::EmptyList),
        args.hosts@.len() > 0 && args.start_value@.len() == 0 ==> step is Ok && step->Ok_0 is Ask,
        step is Ok && step->Ok_0 is Done ==> step->Ok_0->Done_0 < args.hosts@.len(),
{
    let values = display_lines(&args.hosts);
    select("", &values, args.start_value.as_str())
}

/// The host at the place `index`, where there is one.
pub fn selected_host(hosts: &Hosts, index: usize) -> (host: Option<Host>)
    ensures
        index < hosts@.len() ==> host is Some && host->0@ == hosts@[index as int]@,
        index >= hosts@.len() ==> host is None,
{
    if index < hosts.len() {
        Some(hosts[index].clone())
    } else {
        None
    }
}

} // verus!
