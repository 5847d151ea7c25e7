use vstd::prelude::*;
use vstd::string::*;

use crate::authorship::{strs_view, AuthorshipInfo};
use crate::text::{contains_seq, lower_of, lowercase, text_contains};

verus! {

/// Scores and similarities are fixed-point numbers: this value stands for 1.0.
pub const SCORE_SCALE: i64 = 1000000;

/// Pairs whose similarity is at most this (0.3) are never matched.
pub const SIMILARITY_FLOOR: i64 = 300000;

/// Above this similarity (0.7) a match is called high.
pub const HIGH_SIMILARITY: i64 = 700000;

/// Above this similarity (0.5) a match is called moderate.
pub const MODERATE_SIMILARITY: i64 = 500000;

/// Added when the need mentions the capability's language (0.10).
pub const LANGUAGE_BOOST: i64 = 100000;

/// Added when the need and the capability's kind name the same category (0.05).
pub const TYPE_BOOST: i64 = 50000;

/// An external demand or task to be matched against capabilities.
#[derive(Debug, Clone)]
pub struct Need {
    /// Stable identifier.
    pub id: String,
    pub title: String,
    pub description: String,
    /// Display text of the reward, if any.
    pub bounty: Option<String>,
}

pub struct NeedView {
    pub id: Seq<char>,
    pub title: Seq<char>,
    pub description: Seq<char>,
    pub bounty: Option<Seq<char>>,
}

impl View for Need {
    type V = NeedView;

    open spec fn view(&self) -> NeedView {
        NeedView {
            id: self.id@,
            title: self.title@,
            description: self.description@,
            bounty: match self.bounty {
                Some(b) => Some(b@),
                None => None,
            },
        }
    }
}

/// A capability as the matcher sees it: what extraction found, where, and in
/// which language.
#[derive(Debug, Clone)]
pub struct EmbeddedCapability {
    pub name: String,
    /// The kind's label, such as `Function`.
    pub kind: String,
    pub line: usize,
    pub code_snippet: String,
    pub language: String,
    pub path: String,
    pub authorship: Option<AuthorshipInfo>,
}

pub struct EmbeddedView {
    pub name: Seq<char>,
    pub kind: Seq<char>,
    pub line: int,
    pub snippet: Seq<char>,
    pub language: Seq<char>,
    pub path: Seq<char>,
}

impl View for EmbeddedCapability {
    type V = EmbeddedView;

    open spec fn view(&self) -> EmbeddedView {
        EmbeddedView {
            name: self.name@,
            kind: self.kind@,
            line: self.line as int,
            snippet: self.code_snippet@,
            language: self.language@,
            path: self.path@,
        }
    }
}

/// A scored pairing of one need with one capability, with the reasons for
/// the score.
#[derive(Debug, Clone)]
pub struct Match {
    pub need: Need,
    pub capability: EmbeddedCapability,
    /// Position of the need among those matched (0 when one need is matched).
    pub need_index: usize,
    /// Position of the capability in the matchmaker's list.
    pub capability_index: usize,
    /// In `SCORE_SCALE` units, at most `SCORE_SCALE`.
    pub score: u32,
    pub reasons: Vec<String>,
}

pub struct MatchView {
    pub need: NeedView,
    pub capability: EmbeddedView,
    pub need_index: int,
    pub capability_index: int,
    pub score: int,
    pub reasons: Seq<Seq<char>>,
}

impl View for Match {
    type V = MatchView;

    open spec fn view(&self) -> MatchView {
        MatchView {
            need: self.need@,
            capability: self.capability@,
            need_index: self.need_index as int,
            capability_index: self.capability_index as int,
            score: self.score as int,
            reasons: strs_view(self.reasons@),
        }
    }
}

/// The matches of one need, in their original order.
#[derive(Debug, Clone)]
pub struct MatchGroup {
    pub need_id: String,
    pub matches: Vec<Match>,
}

/// Ranks capabilities against needs from precomputed similarities.
pub struct Matchmaker {
    pub capabilities: Vec<EmbeddedCapability>,
}

/// The views of a sequence of matches.
pub open spec fn match_views(s: Seq<Match>) -> Seq<MatchView> {
    s.map_values(|m: Match| m@)
}

/// The need's description mentions the capability's language, ignoring case.
pub open spec fn language_match(description: Seq<char>, language: Seq<char>) -> bool {
    contains_seq(lower_of(description), lower_of(language))
}

/// The capability's kind and the need's description, ignoring case, both
/// name functions, components, or classes.
pub open spec fn type_match(description: Seq<char>, kind: Seq<char>) -> bool {
    let d = lower_of(description);
    let k = lower_of(kind);
    (contains_seq(k, "function"@) && contains_seq(d, "function"@)) || (contains_seq(k, "component"@)
        && contains_seq(d, "component"@)) || (contains_seq(k, "class"@) && contains_seq(d, "class"@))
}

/// Similarity plus the boosts, clamped to at most `SCORE_SCALE`.
pub open spec fn velocity_score(similarity: int, language: bool, kind: bool) -> int {
    let raw = similarity + (if language {
        LANGUAGE_BOOST as int
    } else {
        0
    }) + (if kind {
        TYPE_BOOST as int
    } else {
        0
    });
    if raw > SCORE_SCALE {
        SCORE_SCALE as int
    } else {
        raw
    }
}

/// A similarity as a whole percentage, rounded half up.
pub open spec fn percent_of(similarity: int) -> int {
    (similarity + 5000) / 10000
}

/// The decimal digit for `d` below ten.
pub open spec fn digit_char(d: int) -> char {
    if d == 0 {
        '0'
    } else if d == 1 {
        '1'
    } else if d == 2 {
        '2'
    } else if d == 3 {
        '3'
    } else if d == 4 {
        '4'
    } else if d == 5 {
        '5'
    } else if d == 6 {
        '6'
    } else if d == 7 {
        '7'
    } else if d == 8 {
        '8'
    } else {
        '9'
    }
}

/// The decimal notation of `n`, without leading zeros.
pub open spec fn decimal(n: nat) -> Seq<char>
    decreases n,
{
    if n < 10 {
        seq![digit_char(n as int)]
    } else {
        decimal(n / 10) + seq![digit_char((n % 10) as int)]
    }
}

/// The reasons for a score, in order: the similarity tier, the language
/// match, the type match, and the existing code.
pub open spec fn reasons_for(similarity: int, language: bool, kind: bool, cap: EmbeddedView) -> Seq<
    Seq<char>,
> {
    let tier = if similarity > HIGH_SIMILARITY {
        seq!["High semantic similarity ("@ + decimal(percent_of(similarity) as nat) + "%)"@]
    } else if similarity > MODERATE_SIMILARITY {
        seq!["Moderate semantic similarity ("@ + decimal(percent_of(similarity) as nat) + "%)"@]
    } else {
        seq![]
    };
    let lang = if language {
        seq!["Language match: "@ + cap.language]
    } else {
        seq![]
    };
    let ty = if kind {
        seq!["Type match: "@ + cap.kind]
    } else {
        seq![]
    };
    let has = if cap.snippet.len() > 0 {
        seq!["Has existing: "@ + cap.name]
    } else {
        seq![]
    };
    tier + lang + ty + has
}

/// The match of need `need` (at `ni`) with capability `cap` (at `ci`).
pub open spec fn candidate(need: Need, ni: int, cap: EmbeddedCapability, ci: int, similarity: int) -> MatchView {
    let language = language_match(need.description@, cap.language@);
    let kind = type_match(need.description@, cap.kind@);
    MatchView {
        need: need@,
        capability: cap@,
        need_index: ni,
        capability_index: ci,
        score: velocity_score(similarity, language, kind),
        reasons: reasons_for(similarity, language, kind, cap@),
    }
}

/// The matches of one need against the first `n` capabilities, in
/// capability order: those with a similarity above the floor.
pub open spec fn need_candidates(
    need: Need,
    ni: int,
    caps: Seq<EmbeddedCapability>,
    sims: Seq<Option<i64>>,
    n: int,
) -> Seq<MatchView>
    decreases n,
{
    if n <= 0 {
        seq![]
    } else {
        need_candidates(need, ni, caps, sims, n - 1) + match sims[n - 1] {
            Some(s) => if s > SIMILARITY_FLOOR {
                seq![candidate(need, ni, caps[n - 1], n - 1, s as int)]
            } else {
                seq![]
            },
            None => seq![],
        }
    }
}

/// The matches of the first `n` needs, need after need.
pub open spec fn all_candidates(
    needs: Seq<Need>,
    caps: Seq<EmbeddedCapability>,
    sims: Seq<Vec<Option<i64>>>,
    n: int,
) -> Seq<MatchView>
    decreases n,
{
    if n <= 0 {
        seq![]
    } else {
        all_candidates(needs, caps, sims, n - 1) + need_candidates(
            needs[n - 1],
            n - 1,
            caps,
            sims[n - 1]@,
            caps.len() as int,
        )
    }
}

/// `a` ranks before `b`: a higher score, or an equal score and an earlier
/// need, or the same need and an earlier capability.
pub open spec fn precedes(a: MatchView, b: MatchView) -> bool {
    a.score > b.score || (a.score == b.score && (a.need_index < b.need_index || (a.need_index
        == b.need_index && a.capability_index < b.capability_index)))
}

/// Every match ranks before each one after it.
pub open spec fn ranked(s: Seq<MatchView>) -> bool {
    forall|i: int, j: int| 0 <= i < j < s.len() ==> precedes(#[trigger] s[i], #[trigger] s[j])
}

fn copy_opt(o: &Option<String>) -> (r: Option<String>)
    ensures
        match *o {
            Some(s) => r is Some && r->0@ == s@,
            None => r is None,
        },
{
    match o {
        Some(s) => Some(s.clone()),
        None => None,
    }
}

impl Need {
    /// A copy of the need, field by field.
    pub fn copy(&self) -> (r: Need)
        ensures
            r@ == self@,
    {
        Need {
            id: self.id.clone(),
            title: self.title.clone(),
            description: self.description.clone(),
            bounty: copy_opt(&self.bounty),
        }
    }
}

impl EmbeddedCapability {
    /// A copy of the capability, field by field.
    pub fn copy(&self) -> (r: EmbeddedCapability)
        ensures
            r@ == self@,
    {
        EmbeddedCapability {
            name: self.name.clone(),
            kind: self.kind.clone(),
            line: self.line,
            code_snippet: self.code_snippet.clone(),
            language: self.language.clone(),
            path: self.path.clone(),
            authorship: self.authorship.clone(),
        }
    }
}

/// The one-character text of a decimal digit.
fn digit_text(d: u64) -> (r: String)
    requires
        d < 10,
    ensures
        r@ == seq![digit_char(d as int)],
{
    proof {
        reveal_strlit("0");
        reveal_strlit("1");
        reveal_strlit("2");
        reveal_strlit("3");
        reveal_strlit("4");
        reveal_strlit("5");
        reveal_strlit("6");
        reveal_strlit("7");
        reveal_strlit("8");
        reveal_strlit("9");
    }
    let t = if d == 0 {
        "0"
    } else if d == 1 {
        "1"
    } else if d == 2 {
        "2"
    } else if d == 3 {
        "3"
    } else if d == 4 {
        "4"
    } else if d == 5 {
        "5"
    } else if d == 6 {
        "6"
    } else if d == 7 {
        "7"
    } else if d == 8 {
        "8"
    } else {
        "9"
    };
    let r = String::from_str(t);
    assert(r@ =~= seq![digit_char(d as int)]);
    r
}

/// The decimal notation of `n`.
pub fn decimal_text(n: u64) -> (r: String)
    ensures
        r@ == decimal(n as nat),
    decreases n,
{
    if n < 10 {
        digit_text(n)
    } else {
        let head = decimal_text(n / 10);
        let last = digit_text(n % 10);
        head.concat(last.as_str())
    }
}

/// Whether `hay` contains `needle`, both as given.
fn mentions(hay: &String, needle: &str) -> (r: bool)
    ensures
        r == contains_seq(hay@, needle@),
{
    text_contains(hay.as_str(), needle)
}

/// The score of a pair whose similarity is above the floor, and the reasons
/// for it.
pub fn calculate_ship_velocity_score(
    similarity: i64,
    capability: &EmbeddedCapability,
    need: &Need,
) -> (r: (u32, Vec<String>))
    requires
        similarity > SIMILARITY_FLOOR,
    ensures
        r.0 as int == velocity_score(
            similarity as int,
            language_match(need.description@, capability.language@),
            type_match(need.description@, capability.kind@),
        ),
        strs_view(r.1@) == reasons_for(
            similarity as int,
            language_match(need.description@, capability.language@),
            type_match(need.description@, capability.kind@),
            capability@,
        ),
{
    let mut reasons: Vec<String> = Vec::new();
    let ghost language = language_match(need.description@, capability.language@);
    let ghost kind = type_match(need.description@, capability.kind@);
    if similarity > MODERATE_SIMILARITY {
        let percent = ((similarity as i128 + 5000) / 10000) as u64;
        let label = if similarity > HIGH_SIMILARITY {
            String::from_str("High semantic similarity (")
        } else {
            String::from_str("Moderate semantic similarity (")
        };
        let line = label.concat(decimal_text(percent).as_str()).concat("%)");
        reasons.push(line);
    }
    let ghost tier = strs_view(reasons@);
    let need_lower = lowercase(need.description.as_str());
    let language_lower = lowercase(capability.language.as_str());
    let language_hit = text_contains(need_lower.as_str(), language_lower.as_str());
    if language_hit {
        reasons.push(String::from_str("Language match: ").concat(capability.language.as_str()));
    }
    let ghost with_lang = strs_view(reasons@);
    let kind_lower = lowercase(capability.kind.as_str());
    let kind_hit = (mentions(&kind_lower, "function") && mentions(&need_lower, "function")) || (
    mentions(&kind_lower, "component") && mentions(&need_lower, "component")) || (mentions(
        &kind_lower,
        "class",
    ) && mentions(&need_lower, "class"));
    if kind_hit {
        reasons.push(String::from_str("Type match: ").concat(capability.kind.as_str()));
    }
    let ghost with_kind = strs_view(reasons@);
    if capability.code_snippet.as_str().unicode_len() > 0 {
        reasons.push(String::from_str("Has existing: ").concat(capability.name.as_str()));
    }
    let mut raw: i128 = similarity as i128;
    if language_hit {
        raw = raw + LANGUAGE_BOOST as i128;
    }
    if kind_hit {
        raw = raw + TYPE_BOOST as i128;
    }
    if raw > SCORE_SCALE as i128 {
        raw = SCORE_SCALE as i128;
    }
    assert(strs_view(reasons@) =~= reasons_for(similarity as int, language, kind, capability@));
    (raw as u32, reasons)
}

fn ranks_before(a: &Match, b: &Match) -> (r: bool)
    ensures
        r == precedes(a@, b@),
{
    a.score > b.score || (a.score == b.score && (a.need_index < b.need_index || (a.need_index
        == b.need_index && a.capability_index < b.capability_index)))
}

/// Inserts `m` into a ranked list at its place.
fn insert_ranked(out: &mut Vec<Match>, m: Match) -> (k: usize)
    requires
        ranked(match_views(old(out)@)),
        forall|i: int|
            0 <= i < old(out)@.len() ==> !(#[trigger] old(out)@[i].need_index == m.need_index
                && old(out)@[i].capability_index == m.capability_index),
    ensures
        k <= old(out)@.len(),
        final(out)@ == old(out)@.insert(k as int, m),
        ranked(match_views(final(out)@)),
        final(out)@.len() == old(out)@.len() + 1,
        forall|x: MatchView|
            match_views(final(out)@).contains(x) <==> (match_views(old(out)@).contains(x) || x
                == m@),
{
    let ghost v = match_views(out@);
    let mut k: usize = 0;
    while k < out.len() && !ranks_before(&m, &out[k])
        invariant
            k <= out.len(),
            out@ == old(out)@,
            v == match_views(out@),
            forall|i: int|
                0 <= i < old(out)@.len() ==> !(#[trigger] old(out)@[i].need_index == m.need_index
                    && old(out)@[i].capability_index == m.capability_index),
            forall|j: int| 0 <= j < k ==> precedes(#[trigger] v[j], m@),
        decreases out.len() - k,
    {
        assert(!(out@[k as int].need_index == m.need_index && out@[k as int].capability_index
            == m.capability_index));
        k = k + 1;
    }
    let ghost mv = m@;
    out.insert(k, m);
    proof {
        let w = match_views(out@);
        assert(w =~= v.insert(k as int, mv));
        v.insert_ensures(k as int, mv);
        assert forall|i: int, j: int| 0 <= i < j < w.len() implies precedes(
            #[trigger] w[i],
            #[trigger] w[j],
        ) by {
            if j < k {
                assert(w[i] == v[i] && w[j] == v[j]);
            } else if j == k {
                assert(w[i] == v[i]);
            } else if i == k {
                assert(w[j] == v[j - 1]);
                assert(precedes(mv, v[k as int]));
                if j - 1 > k {
                    assert(precedes(v[k as int], v[j - 1]));
                }
            } else if i < k {
                assert(w[i] == v[i] && w[j] == v[j - 1]);
            } else {
                assert(w[i] == v[i - 1] && w[j] == v[j - 1]);
            }
        }
        assert forall|x: MatchView| w.contains(x) <==> (v.contains(x) || x == mv) by {
            if w.contains(x) {
                let i = choose|i: int| 0 <= i < w.len() && w[i] == x;
                if i < k {
                    assert(v[i] == x);
                } else if i > k {
                    assert(v[i - 1] == x);
                }
            }
            if v.contains(x) {
                let i = choose|i: int| 0 <= i < v.len() && v[i] == x;
                if i < k {
                    assert(w[i] == x);
                } else {
                    assert(w[i + 1] == x);
                }
            }
            if x == mv {
                assert(w[k as int] == x);
            }
        }
    }
    k
}

/// The matches of `s` whose score is at least `min`, in their order.
pub open spec fn scored_at_least(s: Seq<MatchView>, min: int) -> Seq<MatchView>
    decreases s.len(),
{
    if s.len() == 0 {
        seq![]
    } else {
        scored_at_least(s.drop_last(), min) + if s.last().score >= min {
            seq![s.last()]
        } else {
            seq![]
        }
    }
}

/// The matches of `s` whose need has identifier `id`, in their order.
pub open spec fn with_need_id(s: Seq<MatchView>, id: Seq<char>) -> Seq<MatchView>
    decreases s.len(),
{
    if s.len() == 0 {
        seq![]
    } else {
        with_need_id(s.drop_last(), id) + if s.last().need.id == id {
            seq![s.last()]
        } else {
            seq![]
        }
    }
}

/// The groups partition `s` by need identifier: one group per identifier
/// that occurs, none twice, each holding that identifier's matches in order.
pub open spec fn grouped(groups: Seq<MatchGroup>, s: Seq<MatchView>) -> bool {
    &&& forall|i: int, j: int|
        0 <= i < j < groups.len() ==> (#[trigger] groups[i]).need_id@ != (#[trigger] groups[j]).need_id@
    &&& forall|i: int|
        0 <= i < groups.len() ==> match_views((#[trigger] groups[i]).matches@) == with_need_id(
            s,
            groups[i].need_id@,
        )
    &&& forall|k: int|
        0 <= k < s.len() ==> exists|i: int|
            0 <= i < groups.len() && (#[trigger] groups[i]).need_id@ == (#[trigger] s[k]).need.id
}

proof fn lemma_no_id_no_matches(s: Seq<MatchView>, id: Seq<char>)
    requires
        forall|k: int| 0 <= k < s.len() ==> (#[trigger] s[k]).need.id != id,
    ensures
        with_need_id(s, id) == Seq::<MatchView>::empty(),
    decreases s.len(),
{
    if s.len() > 0 {
        assert forall|k: int| 0 <= k < s.drop_last().len() implies (#[trigger] s.drop_last()[k]).need.id != id by {
            assert(s.drop_last()[k] == s[k]);
        }
        lemma_no_id_no_matches(s.drop_last(), id);
        assert(s.last() == s[s.len() - 1]);
    }
}

/// `r` holds the best `k` matches of `c` (all of them when `c` has fewer), best
/// first: each match of `c` left out ranks after every match kept.
pub open spec fn best_of(r: Seq<MatchView>, c: Seq<MatchView>, k: int) -> bool {
    &&& ranked(r)
    &&& r.len() == if k < c.len() {
        k
    } else {
        c.len() as int
    }
    &&& forall|x: MatchView| #[trigger] r.contains(x) ==> c.contains(x)
    &&& forall|x: MatchView, i: int|
        #[trigger] c.contains(x) && !r.contains(x) && 0 <= i < r.len() ==> precedes(#[trigger] r[i], x)
}

/// Keeps the first `k` of a ranked list that holds exactly the matches of `c`.
fn keep_best(v: &mut Vec<Match>, k: usize, c: Ghost<Seq<MatchView>>)
    requires
        ranked(match_views(old(v)@)),
        old(v)@.len() == c@.len(),
        forall|x: MatchView| #[trigger] match_views(old(v)@).contains(x) <==> c@.contains(x),
    ensures
        best_of(match_views(final(v)@), c@, k as int),
{
    let ghost w = match_views(v@);
    v.truncate(k);
    proof {
        let r = match_views(v@);
        let n = r.len();
        assert(r =~= w.take(n as int));
        assert forall|x: MatchView| #[trigger] r.contains(x) implies c@.contains(x) by {
            let i = choose|i: int| 0 <= i < r.len() && r[i] == x;
            assert(w[i] == x);
            assert(w.contains(x));
        }
        assert forall|x: MatchView, i: int|
            #[trigger] c@.contains(x) && !r.contains(x) && 0 <= i < r.len() implies precedes(#[trigger] r[i], x) by {
            assert(w.contains(x));
            let p = choose|p: int| 0 <= p < w.len() && w[p] == x;
            if p < n {
                assert(r[p] == x);
            }
            assert(r[i] == w[i]);
        }
    }
}

impl Matchmaker {
    pub fn new(capabilities: Vec<EmbeddedCapability>) -> (r: Matchmaker)
        ensures
            r.capabilities@ == capabilities@,
    {
        Matchmaker { capabilities }
    }

    /// Adds the matches of `need` (at position `ni`) to the ranked list `out`.
    fn rank_need_into(
        &self,
        need: &Need,
        ni: usize,
        similarities: &Vec<Option<i64>>,
        out: &mut Vec<Match>,
    )
        requires
            similarities@.len() == self.capabilities@.len(),
            ranked(match_views(old(out)@)),
            forall|i: int| 0 <= i < old(out)@.len() ==> (#[trigger] old(out)@[i]).need_index < ni,
        ensures
            ranked(match_views(final(out)@)),
            forall|i: int| 0 <= i < final(out)@.len() ==> (#[trigger] final(out)@[i]).need_index <= ni,
            final(out)@.len() == old(out)@.len() + need_candidates(
                *need,
                ni as int,
                self.capabilities@,
                similarities@,
                self.capabilities@.len() as int,
            ).len(),
            forall|x: MatchView|
                match_views(final(out)@).contains(x) <==> (match_views(old(out)@).contains(x)
                    || need_candidates(
                    *need,
                    ni as int,
                    self.capabilities@,
                    similarities@,
                    self.capabilities@.len() as int,
                ).contains(x)),
    {
        let ghost start = match_views(out@);
        let ghost caps = self.capabilities@;
        let mut i: usize = 0;
        while i < self.capabilities.len()
            invariant
                i <= self.capabilities.len(),
                caps == self.capabilities@,
                similarities@.len() == caps.len(),
                ranked(match_views(out@)),
                forall|j: int|
                    0 <= j < out@.len() ==> (#[trigger] out@[j]).need_index < ni || (
                    out@[j].need_index == ni && out@[j].capability_index < i),
                out@.len() == start.len() + need_candidates(*need, ni as int, caps, similarities@, i as int).len(),
                forall|x: MatchView|
                    #[trigger] match_views(out@).contains(x) <==> (start.contains(x) || need_candidates(
                        *need,
                        ni as int,
                        caps,
                        similarities@,
                        i as int,
                    ).contains(x)),
            decreases self.capabilities.len() - i,
        {
            let ghost before = need_candidates(*need, ni as int, caps, similarities@, i as int);
            let ghost after = need_candidates(*need, ni as int, caps, similarities@, i + 1);
            match similarities[i] {
                Some(s) => {
                    if s > SIMILARITY_FLOOR {
                        let cap = &self.capabilities[i];
                        let (score, reasons) = calculate_ship_velocity_score(s, cap, need);
                        let m = Match {
                            need: need.copy(),
                            capability: cap.copy(),
                            need_index: ni,
                            capability_index: i,
                            score,
                            reasons,
                        };
                        assert(m@ == candidate(*need, ni as int, caps[i as int], i as int, s as int));
                        assert(after =~= before + seq![m@]);
                        let ghost old_out = out@;
                        let ghost mm = m;
                        let k = insert_ranked(out, m);
                        proof {
                            old_out.insert_ensures(k as int, mm);
                            assert forall|j: int| 0 <= j < out@.len() implies (#[trigger] out@[j]).need_index < ni || (
                                out@[j].need_index == ni && out@[j].capability_index < i + 1) by {
                                if j < k {
                                    assert(out@[j] == old_out[j]);
                                } else if j > k {
                                    assert(out@[j] == old_out[j - 1]);
                                }
                            }
                        }
                        assert forall|x: MatchView| after.contains(x) <==> (before.contains(x) || x == m@) by {
                            if after.contains(x) {
                                let k = choose|k: int| 0 <= k < after.len() && after[k] == x;
                                if k < before.len() {
                                    assert(before[k] == x);
                                }
                            }
                            if before.contains(x) {
                                let k = choose|k: int| 0 <= k < before.len() && before[k] == x;
                                assert(after[k] == x);
                            }
                            if x == m@ {
                                assert(after[before.len() as int] == x);
                            }
                        }
                        assert forall|x: MatchView| match_views(out@).contains(x) <==> (start.contains(x) || after.contains(x)) by {
                            assert(match_views(out@).contains(x) <==> (match_views(old_out).contains(x) || x == mm@));
                            assert(match_views(old_out).contains(x) <==> (start.contains(x) || before.contains(x)));
                            assert(after.contains(x) <==> (before.contains(x) || x == mm@));
                        }
                    } else {
                        assert(after =~= before);
                    }
                },
                None => {
                    assert(after =~= before);
                },
            }
            i = i + 1;
        }
    }

    /// The matches of one need, best first: one for each capability whose
    /// similarity (`similarities[i]` for capability `i`; `None` where the
    /// capability has no embedding) is above the floor, ranked by score and,
    /// among equal scores, by capability position.
    pub fn match_need(&self, need: &Need, similarities: &Vec<Option<i64>>) -> (r: Vec<Match>)
        requires
            similarities@.len() == self.capabilities@.len(),
        ensures
            ranked(match_views(r@)),
            r@.len() == need_candidates(
                *need,
                0,
                self.capabilities@,
                similarities@,
                self.capabilities@.len() as int,
            ).len(),
            forall|x: MatchView|
                match_views(r@).contains(x) <==> need_candidates(
                    *need,
                    0,
                    self.capabilities@,
                    similarities@,
                    self.capabilities@.len() as int,
                ).contains(x),
    {
        let mut out: Vec<Match> = Vec::new();
        assert(match_views(out@) =~= seq![]);
        self.rank_need_into(need, 0, similarities, &mut out);
        out
    }

    /// The best `top_k` matches over all needs, best first. Need `n` is
    /// matched with `similarities[n]` as `match_need` does; the matches of
    /// all needs are then ranked together by score and, among equal scores,
    /// by need position and capability position.
    pub fn match_needs(&self, needs: &Vec<Need>, similarities: &Vec<Vec<Option<i64>>>, top_k: usize) -> (r: Vec<Match>)
        requires
            similarities@.len() == needs@.len(),
            forall|n: int| 0 <= n < needs@.len() ==> (#[trigger] similarities@[n])@.len() == self.capabilities@.len(),
        ensures
            best_of(
                match_views(r@),
                all_candidates(needs@, self.capabilities@, similarities@, needs@.len() as int),
                top_k as int,
            ),
            r@.len() <= top_k,
            forall|i: int, j: int| 0 <= i < j < r@.len() ==> #[trigger] r@[i].score >= #[trigger] r@[j].score,
    {
        let ghost caps = self.capabilities@;
        let mut all: Vec<Match> = Vec::new();
        assert(match_views(all@) =~= seq![]);
        let mut n: usize = 0;
        while n < needs.len()
            invariant
                n <= needs.len(),
                caps == self.capabilities@,
                similarities@.len() == needs@.len(),
                forall|m: int| 0 <= m < needs@.len() ==> (#[trigger] similarities@[m])@.len() == caps.len(),
                ranked(match_views(all@)),
                forall|i: int| 0 <= i < all@.len() ==> (#[trigger] all@[i]).need_index < n,
                all@.len() == all_candidates(needs@, caps, similarities@, n as int).len(),
                forall|x: MatchView|
                    #[trigger] match_views(all@).contains(x) <==> all_candidates(needs@, caps, similarities@, n as int).contains(x),
            decreases needs.len() - n,
        {
            let ghost before = all_candidates(needs@, caps, similarities@, n as int);
            let ghost own = need_candidates(needs@[n as int], n as int, caps, similarities@[n as int]@, caps.len() as int);
            let ghost after = all_candidates(needs@, caps, similarities@, n + 1);
            assert(after =~= before + own);
            let ghost old_all = match_views(all@);
            self.rank_need_into(&needs[n], n, &similarities[n], &mut all);
            assert forall|x: MatchView| #[trigger] match_views(all@).contains(x) <==> after.contains(x) by {
                assert(match_views(all@).contains(x) <==> (old_all.contains(x) || own.contains(x)));
                assert(old_all.contains(x) <==> before.contains(x));
                if after.contains(x) {
                    let k = choose|k: int| 0 <= k < after.len() && after[k] == x;
                    if k < before.len() {
                        assert(before[k] == x);
                    } else {
                        assert(own[k - before.len()] == x);
                    }
                }
                if before.contains(x) {
                    let k = choose|k: int| 0 <= k < before.len() && before[k] == x;
                    assert(after[k] == x);
                }
                if own.contains(x) {
                    let k = choose|k: int| 0 <= k < own.len() && own[k] == x;
                    assert(after[before.len() + k] == x);
                }
            }
            n = n + 1;
        }
        keep_best(&mut all, top_k, Ghost(all_candidates(needs@, caps, similarities@, needs@.len() as int)));
        proof {
            let r = match_views(all@);
            assert forall|i: int, j: int| 0 <= i < j < all@.len() implies #[trigger] all@[i].score >= #[trigger] all@[j].score by {
                assert(precedes(r[i], r[j]));
            }
        }
        all
    }

    /// The best `max_capabilities` matches of one need, best first.
    pub fn match_need_composite(&self, need: &Need, similarities: &Vec<Option<i64>>, max_capabilities: usize) -> (r: Vec<Match>)
        requires
            similarities@.len() == self.capabilities@.len(),
        ensures
            best_of(
                match_views(r@),
                need_candidates(*need, 0, self.capabilities@, similarities@, self.capabilities@.len() as int),
                max_capabilities as int,
            ),
    {
        let mut matches = self.match_need(need, similarities);
        keep_best(&mut matches, max_capabilities, Ghost(need_candidates(*need, 0, self.capabilities@, similarities@, self.capabilities@.len() as int)));
        matches
    }

    /// The matches whose score is at least `min_score`, in their order.
    pub fn filter_by_score(matches: Vec<Match>, min_score: u32) -> (r: Vec<Match>)
        ensures
            match_views(r@) == scored_at_least(match_views(matches@), min_score as int),
    {
        let ghost v = match_views(matches@);
        let mut kept: Vec<Match> = Vec::new();
        let mut rest = matches;
        let mut taken: usize = 0;
        let ghost total = v.len();
        assert(match_views(kept@) =~= scored_at_least(v.take(0), min_score as int));
        assert(match_views(rest@) =~= v.skip(0));
        let count = rest.len();
        assert(total == count);
        while rest.len() > 0
            invariant
                total <= usize::MAX,
                taken + rest@.len() == total,
                total == v.len(),
                match_views(rest@) == v.skip(taken as int),
                match_views(kept@) == scored_at_least(v.take(taken as int), min_score as int),
            decreases rest.len(),
        {
            let ghost rv = match_views(rest@);
            let ghost old_rest = rest@;
            let m = rest.remove(0);
            let ghost mv = m@;
            proof {
                assert(rv[0] == mv);
                assert(v.take(taken + 1).drop_last() =~= v.take(taken as int));
                assert(v.take(taken + 1).last() == mv);
                assert(rest@ =~= old_rest.subrange(1, old_rest.len() as int));
                assert forall|j: int| 0 <= j < rest@.len() implies #[trigger] match_views(rest@)[j] == v.skip(taken + 1)[j] by {
                    assert(match_views(rest@)[j] == old_rest[j + 1]@);
                    assert(rv[j + 1] == old_rest[j + 1]@);
                }
                assert(match_views(rest@) =~= v.skip(taken + 1));
            }
            if m.score >= min_score {
                kept.push(m);
            }
            assert(match_views(kept@) =~= scored_at_least(v.take(taken + 1), min_score as int));
            taken = taken + 1;
        }
        assert(v.take(total as int) =~= v);
        kept
    }

    /// The matches grouped by need identifier, groups in the order their
    /// identifier first occurs.
    pub fn group_by_need(matches: Vec<Match>) -> (r: Vec<MatchGroup>)
        ensures
            grouped(r@, match_views(matches@)),
    {
        let ghost v = match_views(matches@);
        let mut groups: Vec<MatchGroup> = Vec::new();
        let mut rest = matches;
        let count = rest.len();
        let mut taken: usize = 0;
        assert(match_views(rest@) =~= v.skip(0));
        while rest.len() > 0
            invariant
                count == v.len(),
                taken + rest@.len() == count,
                match_views(rest@) == v.skip(taken as int),
                grouped(groups@, v.take(taken as int)),
            decreases rest.len(),
        {
            let ghost rv = match_views(rest@);
            let ghost old_rest = rest@;
            let ghost pre = v.take(taken as int);
            let ghost post = v.take(taken + 1);
            let ghost old_groups = groups@;
            let m = rest.remove(0);
            let ghost mv = m@;
            proof {
                assert(rv[0] == mv);
                assert(post.drop_last() =~= pre);
                assert(post.last() == mv);
                assert(rest@ =~= old_rest.subrange(1, old_rest.len() as int));
                assert forall|j: int| 0 <= j < rest@.len() implies #[trigger] match_views(rest@)[j] == v.skip(taken + 1)[j] by {
                    assert(match_views(rest@)[j] == old_rest[j + 1]@);
                    assert(rv[j + 1] == old_rest[j + 1]@);
                }
                assert(match_views(rest@) =~= v.skip(taken + 1));
                assert forall|i: int| 0 <= i < old_groups.len() && old_groups[i].need_id@ != mv.need.id implies
                    #[trigger] with_need_id(post, old_groups[i].need_id@) == with_need_id(pre, old_groups[i].need_id@) by {
                    assert(with_need_id(pre, old_groups[i].need_id@) + seq![] =~= with_need_id(pre, old_groups[i].need_id@));
                }
            }
            let mut j: usize = 0;
            while j < groups.len() && !crate::text::text_eq(groups[j].need_id.as_str(), m.need.id.as_str())
                invariant
                    j <= groups.len(),
                    groups@ == old_groups,
                    forall|i: int| 0 <= i < j ==> (#[trigger] groups@[i]).need_id@ != m.need.id@,
                decreases groups.len() - j,
            {
                j = j + 1;
            }
            if j < groups.len() {
                let mut g = groups.remove(j);
                let ghost gm = match_views(g.matches@);
                g.matches.push(m);
                assert(match_views(g.matches@) =~= gm + seq![mv]);
                groups.insert(j, g);
                proof {
                    old_groups.remove(j as int).insert_ensures(j as int, g);
                    assert forall|i: int| 0 <= i < groups@.len() implies (#[trigger] groups@[i]).need_id@ == old_groups[i].need_id@ by {
                        if i != j {
                            assert(groups@[i] == old_groups[i]);
                        }
                    }
                    assert forall|i: int| 0 <= i < groups@.len() implies match_views((#[trigger] groups@[i]).matches@) == with_need_id(
                        post,
                        groups@[i].need_id@,
                    ) by {
                        if i != j {
                            assert(groups@[i] == old_groups[i]);
                            if old_groups[i].need_id@ == mv.need.id {
                                assert(old_groups[i].need_id@ == old_groups[j as int].need_id@);
                            }
                        }
                    }
                    assert forall|k: int| 0 <= k < post.len() implies exists|i: int|
                        0 <= i < groups@.len() && (#[trigger] groups@[i]).need_id@ == (#[trigger] post[k]).need.id by {
                        if k < pre.len() {
                            assert(post[k] == pre[k]);
                            let i = choose|i: int| 0 <= i < old_groups.len() && (#[trigger] old_groups[i]).need_id@ == pre[k].need.id;
                            assert(groups@[i].need_id@ == post[k].need.id);
                        } else {
                            assert(groups@[j as int].need_id@ == post[k].need.id);
                        }
                    }
                }
            } else {
                let ghost id = mv.need.id;
                let id_text = m.need.id.clone();
                let mut fresh: Vec<Match> = Vec::new();
                fresh.push(m);
                proof {
                    assert forall|k: int| 0 <= k < pre.len() implies (#[trigger] pre[k]).need.id != id by {
                        let i = choose|i: int| 0 <= i < old_groups.len() && (#[trigger] old_groups[i]).need_id@ == pre[k].need.id;
                    }
                    lemma_no_id_no_matches(pre, id);
                    assert(match_views(fresh@) =~= with_need_id(post, id));
                }
                groups.push(MatchGroup { need_id: id_text, matches: fresh });
                proof {
                    assert forall|i: int| 0 <= i < groups@.len() implies match_views((#[trigger] groups@[i]).matches@) == with_need_id(
                        post,
                        groups@[i].need_id@,
                    ) by {
                        if i < old_groups.len() {
                            assert(groups@[i] == old_groups[i]);
                        }
                    }
                    assert forall|a: int, b: int| 0 <= a < b < groups@.len() implies (#[trigger] groups@[a]).need_id@ != (#[trigger] groups@[b]).need_id@ by {
                        assert(groups@[a] == old_groups[a]);
                        if b < old_groups.len() {
                            assert(groups@[b] == old_groups[b]);
                        }
                    }
                    assert forall|k: int| 0 <= k < post.len() implies exists|i: int|
                        0 <= i < groups@.len() && (#[trigger] groups@[i]).need_id@ == (#[trigger] post[k]).need.id by {
                        if k < pre.len() {
                            assert(post[k] == pre[k]);
                            let i = choose|i: int| 0 <= i < old_groups.len() && (#[trigger] old_groups[i]).need_id@ == pre[k].need.id;
                            assert(groups@[i] == old_groups[i]);
                        } else {
                            assert(groups@[old_groups.len() as int].need_id@ == post[k].need.id);
                        }
                    }
                }
            }
            taken = taken + 1;
        }
        assert(v.take(count as int) =~= v);
        groups
    }

    /// A need built from its parts.
    pub fn create_sample_need(id: String, title: String, description: String, bounty: Option<String>) -> (r: Need)
        ensures
            r.id@ == id@,
            r.title@ == title@,
            r.description@ == description@,
            r.bounty == bounty,
    {
        Need { id, title, description, bounty }
    }
}

/// Every match of a need comes from a capability whose similarity is above
/// the floor: no pair at or below it is ever matched.
pub proof fn matches_clear_the_floor(
    need: Need,
    ni: int,
    caps: Seq<EmbeddedCapability>,
    sims: Seq<Option<i64>>,
    n: int,
)
    requires
        0 <= n <= sims.len(),
    ensures
        forall|k: int|
            0 <= k < need_candidates(need, ni, caps, sims, n).len() ==> exists|i: int, s: i64|
                0 <= i < n && sims[i] == Some(s) && s > SIMILARITY_FLOOR && #[trigger] need_candidates(
                    need,
                    ni,
                    caps,
                    sims,
                    n,
                )[k] == candidate(need, ni, caps[i], i, s as int),
    decreases n,
{
    if n > 0 {
        matches_clear_the_floor(need, ni, caps, sims, n - 1);
        let before = need_candidates(need, ni, caps, sims, n - 1);
        let all = need_candidates(need, ni, caps, sims, n);
        assert forall|k: int| 0 <= k < all.len() implies exists|i: int, s: i64|
            0 <= i < n && sims[i] == Some(s) && s > SIMILARITY_FLOOR && #[trigger] all[k]
                == candidate(need, ni, caps[i], i, s as int) by {
            if k < before.len() {
                assert(all[k] == before[k]);
                let (i, s) = choose|i: int, s: i64|
                    0 <= i < n - 1 && sims[i] == Some(s) && s > SIMILARITY_FLOOR && #[trigger] before[k]
                        == candidate(need, ni, caps[i], i, s as int);
                assert(0 <= i < n && sims[i] == Some(s) && s > SIMILARITY_FLOOR && all[k] == candidate(need, ni, caps[i], i, s as int));
            } else {
                let s = sims[n - 1]->0;
                assert(sims[n - 1] == Some(s) && s > SIMILARITY_FLOOR && all[k] == candidate(need, ni, caps[n - 1], n - 1, s as int));
            }
        }
    }
}

/// A score never exceeds `SCORE_SCALE`, and a pair whose boosts would take it
/// past `SCORE_SCALE` scores exactly `SCORE_SCALE`.
pub proof fn score_is_clamped(similarity: int, language: bool, kind: bool)
    ensures
        velocity_score(similarity, language, kind) <= SCORE_SCALE,
        similarity + (if language {
            LANGUAGE_BOOST as int
        } else {
            0
        }) + (if kind {
            TYPE_BOOST as int
        } else {
            0
        }) >= SCORE_SCALE ==> velocity_score(similarity, language, kind) == SCORE_SCALE,
{
}

} // verus!
