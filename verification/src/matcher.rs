//! Greedy, case-insensitive subsequence matching with highlight runs.
//!
//! Two characters count as the same letter when their uppercase mappings
//! agree. A filter matches a name when its letters occur in the name in
//! order; each filter letter takes the first name character that can serve
//! it, and every name character is reported once, tagged by whether a filter
//! letter took it.
use vstd::prelude::*;
use vstd::std_specs::iter::IteratorSpec;

verus! {

/// One character of a candidate name, tagged by whether the filter took it.
#[derive(Clone, Copy, Debug, PartialEq, Eq, Structural)]
pub enum MatchRun {
    Matched(char),
    Unmatched(char),
}

impl MatchRun {
    /// The character that this run covers, whatever its tag.
    pub open spec fn spec_character(self) -> char {
        match self {
            MatchRun::Matched(c) => c,
            MatchRun::Unmatched(c) => c,
        }
    }

    #[verifier::when_used_as_spec(spec_character)]
    pub fn character(self) -> (c: char)
        ensures
            c == self.spec_character(),
    {
        match self {
            MatchRun::Matched(c) => c,
            MatchRun::Unmatched(c) => c,
        }
    }

    pub fn is_matched(self) -> (hit: bool)
        ensures
            hit == (self is Matched),
    {
        match self {
            MatchRun::Matched(_) => true,
            MatchRun::Unmatched(_) => false,
        }
    }
}

/// The uppercase mapping of a character: the characters that the standard
/// library's `char::to_uppercase` yields for it, in order.
pub uninterp spec fn uppercase_of(c: char) -> Seq<char>;

/// Calls `char::to_uppercase` and collects what it yields. Trusted: the
/// contract only gives the collected characters the name `uppercase_of`;
/// nothing is claimed about which characters they are.
#[verifier::external_body]
fn uppercase(c: char) -> (key: String)
    ensures
        key@ == uppercase_of(c),
{
    c.to_uppercase().collect()
}

/// A character together with the key under which it is matched.
pub struct Letter {
    pub character: char,
    pub key: Seq<char>,
}

/// A character whose matching key has been computed.
pub struct FoldedChar {
    pub character: char,
    pub key: String,
}

impl FoldedChar {
    /// Pairs a character with its uppercase mapping.
    pub fn new(character: char) -> (folded: FoldedChar)
        ensures
            folded@ == letter_of(character),
    {
        FoldedChar { character, key: uppercase(character) }
    }
}

impl View for FoldedChar {
    type V = Letter;

    open spec fn view(&self) -> Letter {
        Letter { character: self.character, key: self.key@ }
    }
}

/// The letters that a vector of folded characters stands for.
pub open spec fn letters_view(folded: Seq<FoldedChar>) -> Seq<Letter> {
    Seq::new(folded.len(), |i: int| folded[i]@)
}

/// A character with its uppercase mapping as key.
pub open spec fn letter_of(c: char) -> Letter {
    Letter { character: c, key: uppercase_of(c) }
}

/// Each character of `text` with its uppercase mapping as key.
pub open spec fn letters_of(text: Seq<char>) -> Seq<Letter> {
    Seq::new(text.len(), |i: int| letter_of(text[i]))
}

/// The characters of `name`, none of them taken.
pub open spec fn all_unmatched(name: Seq<Letter>) -> Seq<MatchRun> {
    Seq::new(name.len(), |i: int| MatchRun::Unmatched(name[i].character))
}

/// `prefix` followed by the runs of `rest`, where there are any.
pub open spec fn runs_after(prefix: Seq<MatchRun>, rest: Option<Seq<MatchRun>>) -> Option<
    Seq<MatchRun>,
> {
    match rest {
        Some(runs) => Some(prefix + runs),
        None => None,
    }
}

/// The outcome of matching `filter` against `name`, letter by letter.
///
/// An empty filter takes nothing. Otherwise the first filter letter is
/// served by the first name character with the same key, everything before
/// that character stays unmatched, and the remaining filter goes on behind
/// it. A filter letter that the rest of the name cannot serve fails the
/// whole match.
pub open spec fn greedy_runs(filter: Seq<Letter>, name: Seq<Letter>) -> Option<Seq<MatchRun>>
    decreases name.len(),
{
    if filter.len() == 0 {
        Some(all_unmatched(name))
    } else if name.len() == 0 {
        None
    } else if filter[0].key == name[0].key {
        runs_after(
            seq![MatchRun::Matched(name[0].character)],
            greedy_runs(filter.drop_first(), name.drop_first()),
        )
    } else {
        runs_after(
            seq![MatchRun::Unmatched(name[0].character)],
            greedy_runs(filter, name.drop_first()),
        )
    }
}

/// The outcome of matching the text `filter` against the text `name`.
pub open spec fn match_runs(filter: Seq<char>, name: Seq<char>) -> Option<Seq<MatchRun>> {
    greedy_runs(letters_of(filter), letters_of(name))
}

/// The characters that a sequence of runs covers, tags dropped.
pub open spec fn spelled(runs: Seq<MatchRun>) -> Seq<char> {
    Seq::new(runs.len(), |i: int| runs[i].spec_character())
}

/// The characters of a sequence of letters.
pub open spec fn characters_of(name: Seq<Letter>) -> Seq<char> {
    Seq::new(name.len(), |i: int| name[i].character)
}

/// `at` names, for each filter letter in turn, a later and later position
/// of `name` that holds a letter with the same key.
pub open spec fn is_embedding(at: Seq<int>, filter: Seq<Letter>, name: Seq<Letter>) -> bool {
    &&& at.len() == filter.len()
    &&& forall|k: int|
        0 <= k < at.len() ==> 0 <= #[trigger] at[k] < name.len() && filter[k].key == name[at[k]].key
    &&& forall|j: int, k: int| 0 <= j < k < at.len() ==> #[trigger] at[j] < #[trigger] at[k]
}

/// The letters of `filter` occur in `name`, in order.
pub open spec fn is_subsequence(filter: Seq<Letter>, name: Seq<Letter>) -> bool {
    exists|at: Seq<int>| is_embedding(at, filter, name)
}

/// The text `filter` occurs in the text `name` in order, letter case aside.
pub open spec fn occurs_in_order(filter: Seq<char>, name: Seq<char>) -> bool {
    is_subsequence(letters_of(filter), letters_of(name))
}

/// Every successful match reports each character of the name once, in the
/// order of the name.
pub proof fn lemma_runs_spell_name(filter: Seq<Letter>, name: Seq<Letter>)
    ensures
        greedy_runs(filter, name) matches Some(runs) ==> spelled(runs) == characters_of(name),
    decreases name.len(),
{
    if filter.len() == 0 {
        assert(spelled(all_unmatched(name)) =~= characters_of(name));
    } else if name.len() > 0 {
        let rest = name.drop_first();
        let (head, tail) = if filter[0].key == name[0].key {
            (MatchRun::Matched(name[0].character), greedy_runs(filter.drop_first(), rest))
        } else {
            (MatchRun::Unmatched(name[0].character), greedy_runs(filter, rest))
        };
        if filter[0].key == name[0].key {
            lemma_runs_spell_name(filter.drop_first(), rest);
        } else {
            lemma_runs_spell_name(filter, rest);
        }
        if let Some(runs) = tail {
            let all = seq![head] + runs;
            assert(spelled(runs).len() == characters_of(rest).len());
            assert(all.len() == name.len());
            assert forall|i: int| 0 <= i < name.len() implies spelled(all)[i] == characters_of(
                name,
            )[i] by {
                if i > 0 {
                    assert(all[i] == runs[i - 1]);
                    assert(spelled(runs)[i - 1] == characters_of(rest)[i - 1]);
                    assert(rest[i - 1] == name[i]);
                } else {
                    assert(all[0] == head);
                }
            }
            assert(spelled(all) =~= characters_of(name));
        }
    }
}

/// A filter whose letters occur in the name in order is matched.
pub proof fn lemma_embedded_filter_matches(at: Seq<int>, filter: Seq<Letter>, name: Seq<Letter>)
    requires
        is_embedding(at, filter, name),
    ensures
        greedy_runs(filter, name) is Some,
    decreases name.len(),
{
    if filter.len() > 0 {
        assert(0 <= at[0] < name.len());
        let rest = name.drop_first();
        if filter[0].key == name[0].key {
            let shifted = Seq::new((at.len() - 1) as nat, |k: int| at[k + 1] - 1);
            assert forall|k: int| 0 <= k < shifted.len() implies 0 <= #[trigger] shifted[k]
                < rest.len() && filter.drop_first()[k].key == rest[shifted[k]].key by {
                assert(at[0] < at[k + 1]);
            }
            assert forall|j: int, k: int| 0 <= j < k < shifted.len() implies #[trigger] shifted[j]
                < #[trigger] shifted[k] by {
                assert(at[j + 1] < at[k + 1]);
            }
            lemma_embedded_filter_matches(shifted, filter.drop_first(), rest);
        } else {
            let shifted = Seq::new(at.len(), |k: int| at[k] - 1);
            assert forall|k: int| 0 <= k < shifted.len() implies 0 <= #[trigger] shifted[k]
                < rest.len() && filter[k].key == rest[shifted[k]].key by {
                if k > 0 {
                    assert(at[0] < at[k]);
                }
            }
            assert forall|j: int, k: int| 0 <= j < k < shifted.len() implies #[trigger] shifted[j]
                < #[trigger] shifted[k] by {
                assert(at[j] < at[k]);
            }
            lemma_embedded_filter_matches(shifted, filter, rest);
        }
    }
}

/// A matched filter occurs in the name in order.
pub proof fn lemma_matched_filter_is_embedded(filter: Seq<Letter>, name: Seq<Letter>)
    requires
        greedy_runs(filter, name) is Some,
    ensures
        is_subsequence(filter, name),
    decreases name.len(),
{
    if filter.len() == 0 {
        assert(is_embedding(Seq::<int>::empty(), filter, name));
    } else {
        let rest = name.drop_first();
        if filter[0].key == name[0].key {
            lemma_matched_filter_is_embedded(filter.drop_first(), rest);
            let inner = choose|at: Seq<int>| is_embedding(at, filter.drop_first(), rest);
            let at = Seq::new(filter.len(), |k: int| if k == 0 { 0 } else { inner[k - 1] + 1 });
            assert forall|k: int| 0 <= k < at.len() implies 0 <= #[trigger] at[k] < name.len()
                && filter[k].key == name[at[k]].key by {
                if k > 0 {
                    assert(0 <= inner[k - 1] < rest.len());
                    assert(filter.drop_first()[k - 1].key == rest[inner[k - 1]].key);
                }
            }
            assert forall|j: int, k: int| 0 <= j < k < at.len() implies #[trigger] at[j]
                < #[trigger] at[k] by {
                assert(0 <= inner[k - 1]);
                if j > 0 {
                    assert(inner[j - 1] < inner[k - 1]);
                }
            }
            assert(is_embedding(at, filter, name));
        } else {
            lemma_matched_filter_is_embedded(filter, rest);
            let inner = choose|at: Seq<int>| is_embedding(at, filter, rest);
            let at = Seq::new(filter.len(), |k: int| inner[k] + 1);
            assert forall|k: int| 0 <= k < at.len() implies 0 <= #[trigger] at[k] < name.len()
                && filter[k].key == name[at[k]].key by {
                assert(0 <= inner[k] < rest.len());
                assert(filter[k].key == rest[inner[k]].key);
            }
            assert forall|j: int, k: int| 0 <= j < k < at.len() implies #[trigger] at[j]
                < #[trigger] at[k] by {
                assert(inner[j] < inner[k]);
            }
            assert(is_embedding(at, filter, name));
        }
    }
}

/// A match succeeds exactly when the filter occurs in the name in order,
/// letter case aside, and a successful match spells the name.
pub proof fn lemma_match_iff_occurs(filter: Seq<char>, name: Seq<char>)
    ensures
        match_runs(filter, name) is Some <==> occurs_in_order(filter, name),
        match_runs(filter, name) matches Some(runs) ==> spelled(runs) == name,
{
    let want = letters_of(filter);
    let have = letters_of(name);
    if greedy_runs(want, have) is Some {
        lemma_matched_filter_is_embedded(want, have);
    }
    if occurs_in_order(filter, name) {
        let at = choose|at: Seq<int>| is_embedding(at, want, have);
        lemma_embedded_filter_matches(at, want, have);
    }
    lemma_runs_spell_name(want, have);
    assert(characters_of(have) =~= name);
}

/// The characters of the runs that the filter took, in order.
pub open spec fn hits(runs: Seq<MatchRun>) -> Seq<char>
    decreases runs.len(),
{
    if runs.len() == 0 {
        Seq::empty()
    } else {
        match runs[0] {
            MatchRun::Matched(c) => seq![c] + hits(runs.drop_first()),
            MatchRun::Unmatched(_) => hits(runs.drop_first()),
        }
    }
}

/// The name with every character taken.
pub open spec fn all_matched(name: Seq<Letter>) -> Seq<MatchRun> {
    Seq::new(name.len(), |i: int| MatchRun::Matched(name[i].character))
}

/// Where each name letter is keyed by its uppercase mapping, the
/// highlighted characters of a successful match are as many as the filter
/// has letters, and each has the key of its filter letter.
proof fn lemma_hits_serve_filter(filter: Seq<Letter>, name: Seq<Letter>)
    requires
        forall|i: int| 0 <= i < name.len() ==> name[i].key == uppercase_of(name[i].character),
    ensures
        greedy_runs(filter, name) matches Some(runs) ==> hits(runs).len() == filter.len() && (
        forall|k: int|
            0 <= k < filter.len() ==> uppercase_of(#[trigger] hits(runs)[k]) == filter[k].key),
    decreases name.len(),
{
    if filter.len() == 0 {
        lemma_unmatched_runs_have_no_hits(name);
    } else if name.len() > 0 {
        let rest = name.drop_first();
        assert forall|i: int| 0 <= i < rest.len() implies rest[i].key == uppercase_of(
            rest[i].character,
        ) by {
            assert(rest[i] == name[i + 1]);
        }
        if filter[0].key == name[0].key {
            lemma_hits_serve_filter(filter.drop_first(), rest);
            if let Some(tail) = greedy_runs(filter.drop_first(), rest) {
                let runs = seq![MatchRun::Matched(name[0].character)] + tail;
                assert(runs.drop_first() =~= tail);
                assert(hits(runs) == seq![name[0].character] + hits(tail));
                assert forall|k: int| 0 <= k < filter.len() implies uppercase_of(
                    #[trigger] hits(runs)[k],
                ) == filter[k].key by {
                    if k > 0 {
                        assert(hits(runs)[k] == hits(tail)[k - 1]);
                        assert(filter.drop_first()[k - 1] == filter[k]);
                    } else {
                        assert(hits(runs)[0] == name[0].character);
                    }
                }
            }
        } else {
            lemma_hits_serve_filter(filter, rest);
            if let Some(tail) = greedy_runs(filter, rest) {
                let runs = seq![MatchRun::Unmatched(name[0].character)] + tail;
                assert(runs.drop_first() =~= tail);
                assert(hits(runs) == hits(tail));
            }
        }
    }
}

/// The highlighted characters of a successful match spell the filter,
/// letter case aside: there are as many as the filter has letters, and each
/// is the same letter as the filter letter that took it.
pub proof fn lemma_highlights_spell_filter(filter: Seq<char>, name: Seq<char>)
    ensures
        match_runs(filter, name) matches Some(runs) ==> hits(runs).len() == filter.len() && (
        forall|k: int|
            0 <= k < filter.len() ==> uppercase_of(#[trigger] hits(runs)[k]) == uppercase_of(
                filter[k],
            )),
{
    lemma_hits_serve_filter(letters_of(filter), letters_of(name));
}

/// Runs that are all unmatched hold no hit.
proof fn lemma_unmatched_runs_have_no_hits(name: Seq<Letter>)
    ensures
        hits(all_unmatched(name)).len() == 0,
    decreases name.len(),
{
    if name.len() > 0 {
        lemma_unmatched_runs_have_no_hits(name.drop_first());
        assert(all_unmatched(name).drop_first() =~= all_unmatched(name.drop_first()));
    }
}

/// A filter that has the letters of the name, one for one, takes every
/// character of it.
proof fn lemma_same_keys_match_fully(filter: Seq<Letter>, name: Seq<Letter>)
    requires
        filter.len() == name.len(),
        forall|i: int| 0 <= i < name.len() ==> filter[i].key == name[i].key,
    ensures
        greedy_runs(filter, name) == Some(all_matched(name)),
    decreases name.len(),
{
    if name.len() == 0 {
        assert(all_unmatched(name) =~= all_matched(name));
    } else {
        let rest = name.drop_first();
        assert forall|i: int| 0 <= i < rest.len() implies filter.drop_first()[i].key
            == rest[i].key by {
            assert(filter[i + 1].key == name[i + 1].key);
        }
        lemma_same_keys_match_fully(filter.drop_first(), rest);
        assert(seq![MatchRun::Matched(name[0].character)] + all_matched(rest) =~= all_matched(
            name,
        ));
    }
}

/// Letter case does not count: a filter that differs from the name only in
/// the case of its letters matches it, and takes every character.
pub proof fn lemma_case_is_ignored(filter: Seq<char>, name: Seq<char>)
    requires
        filter.len() == name.len(),
        forall|i: int| 0 <= i < name.len() ==> uppercase_of(filter[i]) == uppercase_of(name[i]),
    ensures
        match_runs(filter, name) == Some(all_matched(letters_of(name))),
        match_runs(name, filter) == Some(all_matched(letters_of(filter))),
{
    lemma_same_keys_match_fully(letters_of(filter), letters_of(name));
    lemma_same_keys_match_fully(letters_of(name), letters_of(filter));
}

/// The empty filter matches every name and highlights nothing: the runs
/// are the characters of the name, each unmatched. A name of one character
/// gives exactly one run.
pub proof fn lemma_empty_filter_matches_all(filter: Seq<char>, name: Seq<char>)
    requires
        filter.len() == 0,
    ensures
        match_runs(filter, name) matches Some(runs) && runs.len() == name.len() && (forall|
            i: int,
        |
            0 <= i < name.len() ==> #[trigger] runs[i] == MatchRun::Unmatched(name[i])),
        name.len() == 1 ==> match_runs(filter, name) == Some(seq![MatchRun::Unmatched(name[0])]),
{
    let runs = all_unmatched(letters_of(name));
    if name.len() == 1 {
        assert(runs =~= seq![MatchRun::Unmatched(name[0])]);
    }
}

/// What a computed outcome stands for in contracts.
pub open spec fn outcome_view(outcome: Option<Vec<MatchRun>>) -> Option<Seq<MatchRun>> {
    match outcome {
        Some(runs) => Some(runs@),
        None => None,
    }
}

/// Matches a folded filter against a folded name.
pub fn match_folded(filter: &Vec<FoldedChar>, name: &Vec<FoldedChar>) -> (outcome: Option<
    Vec<MatchRun>,
>)
    ensures
        outcome_view(outcome) == greedy_runs(letters_view(filter@), letters_view(name@)),
{
    let ghost want = letters_view(filter@);
    let ghost have = letters_view(name@);
    let mut runs: Vec<MatchRun> = Vec::new();
    let mut taken: usize = 0;
    let mut scanned: usize = 0;
    proof {
        assert(want.skip(0) =~= want);
        assert(have.skip(0) =~= have);
        if let Some(r) = greedy_runs(want, have) {
            assert(runs@ + r =~= r);
        }
    }
    while taken < filter.len()
        invariant
            taken <= filter.len(),
            scanned <= name.len(),
            want == letters_view(filter@),
            have == letters_view(name@),
            runs@.len() == scanned,
            greedy_runs(want, have) == runs_after(
                runs@,
                greedy_runs(want.skip(taken as int), have.skip(scanned as int)),
            ),
        decreases name.len() - scanned,
    {
        if scanned == name.len() {
            return None;
        }
        let ghost before = runs@;
        let ghost rest_filter = want.skip(taken as int);
        let ghost rest_name = have.skip(scanned as int);
        assert(rest_filter[0] == want[taken as int]);
        assert(rest_name[0] == have[scanned as int]);
        assert(rest_name.drop_first() =~= have.skip(scanned + 1));
        assert(rest_filter.drop_first() =~= want.skip(taken + 1));
        let character = name[scanned].character;
        if filter[taken].key == name[scanned].key {
            runs.push(MatchRun::Matched(character));
            taken += 1;
        } else {
            runs.push(MatchRun::Unmatched(character));
        }
        scanned += 1;
        proof {
            let step = seq![runs@[scanned - 1]];
            let tail = greedy_runs(want.skip(taken as int), have.skip(scanned as int));
            assert(greedy_runs(rest_filter, rest_name) == runs_after(step, tail));
            if let Some(r) = tail {
                assert(before + (step + r) =~= runs@ + r);
            }
        }
    }
    proof {
        assert(want.skip(taken as int).len() == 0);
    }
    while scanned < name.len()
        invariant
            scanned <= name.len(),
            have == letters_view(name@),
            runs@.len() == scanned,
            greedy_runs(want, have) == Some(runs@ + all_unmatched(have.skip(scanned as int))),
        decreases name.len() - scanned,
    {
        let ghost before = runs@;
        runs.push(MatchRun::Unmatched(name[scanned].character));
        scanned += 1;
        proof {
            assert(before + all_unmatched(have.skip(scanned - 1)) =~= runs@ + all_unmatched(
                have.skip(scanned as int),
            ));
        }
    }
    proof {
        assert(runs@ + all_unmatched(have.skip(scanned as int)) =~= runs@);
    }
    Some(runs)
}

/// Computes the matching key of every character of `text`.
pub fn fold(text: &str) -> (folded: Vec<FoldedChar>)
    ensures
        letters_view(folded@) == letters_of(text@),
{
    broadcast use vstd::string::group_string_axioms;

    let mut letters: Vec<FoldedChar> = Vec::new();
    let mut rest = text.chars();
    loop
        invariant
            letters@.len() <= text@.len(),
            rest.remaining() == text@.skip(letters@.len() as int),
            letters_view(letters@) == letters_of(text@.take(letters@.len() as int)),
        ensures
            letters@.len() == text@.len(),
            letters_view(letters@) == letters_of(text@.take(letters@.len() as int)),
        decreases text@.len() - letters@.len(),
    {
        let ghost done = letters@.len() as int;
        let ghost earlier = letters@;
        match rest.next() {
            Some(c) => {
                assert(text@.skip(done).len() > 0);
                assert(c == text@.skip(done)[0]);
                letters.push(FoldedChar::new(c));
                assert(text@.skip(done).drop_first() =~= text@.skip(done + 1));
                assert forall|i: int| 0 <= i <= done implies letters_view(letters@)[i]
                    == letters_of(text@.take(done + 1))[i] by {
                    if i < done {
                        assert(letters_view(earlier)[i] == letters_of(text@.take(done))[i]);
                    }
                }
                assert(letters_view(letters@) =~= letters_of(text@.take(done + 1)));
            },
            None => {
                assert(text@.skip(done).len() == 0);
                break ;
            },
        }
    }
    assert(text@.take(text@.len() as int) =~= text@);
    letters
}

/// Matches the filter text against a candidate name.
///
/// `None` excludes the name. `Some` carries one run for each character of
/// the name, in order.
pub fn match_name(filter: &str, name: &str) -> (outcome: Option<Vec<MatchRun>>)
    ensures
        outcome_view(outcome) == match_runs(filter@, name@),
        outcome is Some <==> occurs_in_order(filter@, name@),
        outcome matches Some(runs) ==> spelled(runs@) == name@,
{
    let wanted = fold(filter);
    let candidate = fold(name);
    proof {
        lemma_match_iff_occurs(filter@, name@);
    }
    match_folded(&wanted, &candidate)
}

} // verus!
