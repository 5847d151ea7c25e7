use vstd::prelude::*;

use crate::text::{contains_seq, text_contains, text_eq};

verus! {

/// Who wrote a range of lines, aggregated from per-line blame.
///
/// The user's share of the range is `user_lines / total_lines`, and the whole
/// range when it is empty. The confidence in the aggregated identity is the
/// mean of `email_agreement / email_lines` and `name_agreement / name_lines`,
/// each taken as zero when its denominator is zero.
#[derive(Debug, Clone)]
pub struct AuthorshipInfo {
    /// The most frequent author email in the range.
    pub author_email: Option<String>,
    /// The most frequent author name in the range.
    pub author_name: Option<String>,
    /// The commit of the range's first blamed line.
    pub commit_sha: Option<String>,
    /// Lines whose author is the configured user.
    pub user_lines: usize,
    /// Lines in the range.
    pub total_lines: usize,
    /// How many lines carry the most frequent email.
    pub email_agreement: usize,
    /// How many lines carry an email at all.
    pub email_lines: usize,
    /// How many lines carry the most frequent name.
    pub name_agreement: usize,
    /// How many lines carry a name at all.
    pub name_lines: usize,
    /// Whether the user wrote at least 80% of the range.
    pub is_self_authored: bool,
}

/// What blame says of one line: the commit that last touched it and that
/// commit's author identity.
#[derive(Debug, Clone)]
pub struct BlameLine {
    pub commit_sha: String,
    pub email: Option<String>,
    pub name: Option<String>,
}

/// Aggregates per-line blame into an `AuthorshipInfo`, measuring the share of
/// a configured user.
#[derive(Debug, Clone)]
pub struct AuthorshipAnalyzer {
    pub user_email: Option<String>,
    pub user_name: Option<String>,
}

/// The characters of an optional string.
pub open spec fn opt_view(o: Option<String>) -> Option<Seq<char>> {
    match o {
        Some(s) => Some(s@),
        None => None,
    }
}

/// The characters of each string.
pub open spec fn strs_view(v: Seq<String>) -> Seq<Seq<char>> {
    v.map_values(|x: String| x@)
}

/// How often `x` occurs among the first `n` elements of `s`.
pub open spec fn count_in(s: Seq<Seq<char>>, x: Seq<char>, n: int) -> nat
    decreases n,
{
    if n <= 0 {
        0
    } else {
        count_in(s, x, n - 1) + if s[n - 1] == x {
            1nat
        } else {
            0nat
        }
    }
}

/// How often `x` occurs in `s`.
pub open spec fn occurrences(s: Seq<Seq<char>>, x: Seq<char>) -> nat {
    count_in(s, x, s.len() as int)
}

/// Index `i` holds the most frequent value of `s`, and no earlier index holds
/// a value as frequent: among equally frequent values the first seen wins.
pub open spec fn is_mode_at(s: Seq<Seq<char>>, i: int) -> bool {
    &&& 0 <= i < s.len()
    &&& forall|j: int| 0 <= j < s.len() ==> occurrences(s, #[trigger] s[j]) <= occurrences(s, s[i])
    &&& forall|j: int| 0 <= j < i ==> occurrences(s, #[trigger] s[j]) < occurrences(s, s[i])
}

/// The emails that the blamed lines carry, in line order.
pub open spec fn emails_of(lines: Seq<Option<BlameLine>>) -> Seq<Seq<char>>
    decreases lines.len(),
{
    if lines.len() == 0 {
        seq![]
    } else {
        emails_of(lines.drop_last()) + match lines.last() {
            Some(b) => match b.email {
                Some(e) => seq![e@],
                None => seq![],
            },
            None => seq![],
        }
    }
}

/// The names that the blamed lines carry, in line order.
pub open spec fn names_of(lines: Seq<Option<BlameLine>>) -> Seq<Seq<char>>
    decreases lines.len(),
{
    if lines.len() == 0 {
        seq![]
    } else {
        names_of(lines.drop_last()) + match lines.last() {
            Some(b) => match b.name {
                Some(e) => seq![e@],
                None => seq![],
            },
            None => seq![],
        }
    }
}

/// The commit of the first blamed line.
pub open spec fn first_commit(lines: Seq<Option<BlameLine>>) -> Option<Seq<char>>
    decreases lines.len(),
{
    if lines.len() == 0 {
        None
    } else {
        match lines[0] {
            Some(b) => Some(b.commit_sha@),
            None => first_commit(lines.drop_first()),
        }
    }
}

/// An author is the user when the author's email equals or contains the
/// user's email, or the author's name equals or contains the user's name.
pub open spec fn is_user(
    user_email: Option<Seq<char>>,
    user_name: Option<Seq<char>>,
    email: Option<Seq<char>>,
    name: Option<Seq<char>>,
) -> bool {
    (match (user_email, email) {
        (Some(u), Some(e)) => e == u || contains_seq(e, u),
        _ => false,
    }) || (match (user_name, name) {
        (Some(u), Some(n)) => n == u || contains_seq(n, u),
        _ => false,
    })
}

/// Blamed lines whose author is the user.
pub open spec fn user_line_count(
    user_email: Option<Seq<char>>,
    user_name: Option<Seq<char>>,
    lines: Seq<Option<BlameLine>>,
) -> nat
    decreases lines.len(),
{
    if lines.len() == 0 {
        0
    } else {
        user_line_count(user_email, user_name, lines.drop_last()) + match lines.last() {
            Some(b) => if is_user(user_email, user_name, opt_view(b.email), opt_view(b.name)) {
                1nat
            } else {
                0nat
            },
            None => 0nat,
        }
    }
}

/// The user's share of a range as a fraction (numerator, denominator): the
/// whole range, 100%, when the range is empty.
pub open spec fn contribution_fraction(user: int, total: int) -> (int, int) {
    if total == 0 {
        (1, 1)
    } else {
        (user, total)
    }
}

/// How far lines agree on a value, as a fraction: the lines carrying the most
/// frequent value over the lines carrying one, and zero when none does.
pub open spec fn agreement_fraction(agreeing: int, carrying: int) -> (int, int) {
    if carrying == 0 {
        (0, 1)
    } else {
        (agreeing, carrying)
    }
}

/// The user's share of `user` lines out of `total` is at least 80%.
pub open spec fn self_authored(user: int, total: int) -> bool {
    100 * contribution_fraction(user, total).0 >= 80 * contribution_fraction(user, total).1
}

/// The most frequent value and how often it occurs (`None` and 0 when there
/// is none).
pub open spec fn mode_matches(s: Seq<Seq<char>>, m: Option<String>, agreement: int) -> bool {
    if s.len() == 0 {
        m is None && agreement == 0
    } else {
        exists|i: int| is_mode_at(s, i) && opt_view(m) == Some(s[i]) && agreement == occurrences(s, s[i])
    }
}

/// The number of lines in the 1-based inclusive range `start..=end`: none when
/// the range is empty or degenerate.
pub open spec fn range_len(start: int, end: int) -> int {
    if start > end {
        0
    } else {
        end - start + 1
    }
}

proof fn lemma_count_bounded(s: Seq<Seq<char>>, x: Seq<char>, n: int)
    requires
        0 <= n <= s.len(),
    ensures
        count_in(s, x, n) <= n,
        (exists|j: int| 0 <= j < n && s[j] == x) ==> count_in(s, x, n) >= 1,
    decreases n,
{
    if n > 0 {
        lemma_count_bounded(s, x, n - 1);
        if exists|j: int| 0 <= j < n && s[j] == x {
            let j = choose|j: int| 0 <= j < n && s[j] == x;
            if j < n - 1 {
                assert(exists|k: int| 0 <= k < n - 1 && s[k] == x);
            }
        }
    }
}

/// A non-empty range is self-authored exactly when the user wrote at least
/// four lines in five, the boundary share included.
pub proof fn self_authored_boundary(user: int, total: int)
    requires
        0 <= user <= total,
        total > 0,
    ensures
        self_authored(user, total) <==> user * 5 >= total * 4,
{
}

/// Whether `user` of `total` lines is at least 80%.
pub fn meets_self_threshold(user: usize, total: usize) -> (r: bool)
    requires
        user <= total,
    ensures
        r == self_authored(user as int, total as int),
{
    user as u128 * 100 >= total as u128 * 80
}

/// How often `x` occurs in `s`.
fn count_of(s: &Vec<String>, x: &String) -> (r: usize)
    ensures
        r == occurrences(strs_view(s@), x@),
{
    let ghost v = strs_view(s@);
    let mut c: usize = 0;
    let mut j: usize = 0;
    while j < s.len()
        invariant
            j <= s.len(),
            v == strs_view(s@),
            c == count_in(v, x@, j as int),
            c <= j,
        decreases s.len() - j,
    {
        if text_eq(s[j].as_str(), x.as_str()) {
            c = c + 1;
        }
        j = j + 1;
    }
    c
}

/// The index of the most frequent value (the first seen among equals), with
/// its count.
fn most_common(s: &Vec<String>) -> (r: Option<(usize, usize)>)
    ensures
        match r {
            None => s@.len() == 0,
            Some((i, c)) => is_mode_at(strs_view(s@), i as int) && c == occurrences(
                strs_view(s@),
                s@[i as int]@,
            ),
        },
{
    let ghost v = strs_view(s@);
    if s.len() == 0 {
        return None;
    }
    let mut best: usize = 0;
    let mut best_count = count_of(s, &s[0]);
    let mut i: usize = 1;
    while i < s.len()
        invariant
            1 <= i <= s.len(),
            v == strs_view(s@),
            best < i,
            best_count == occurrences(v, v[best as int]),
            forall|j: int| 0 <= j < i ==> occurrences(v, #[trigger] v[j]) <= best_count,
            forall|j: int| 0 <= j < best ==> occurrences(v, #[trigger] v[j]) < best_count,
        decreases s.len() - i,
    {
        let c = count_of(s, &s[i]);
        if c > best_count {
            best = i;
            best_count = c;
        }
        i = i + 1;
    }
    Some((best, best_count))
}

impl AuthorshipAnalyzer {
    pub fn new(user_email: Option<String>, user_name: Option<String>) -> (r: AuthorshipAnalyzer)
        ensures
            opt_view(r.user_email) == opt_view(user_email),
            opt_view(r.user_name) == opt_view(user_name),
    {
        AuthorshipAnalyzer { user_email, user_name }
    }

    /// Whether an author with this email and name is the configured user.
    pub fn is_user_author(&self, email: &Option<String>, name: &Option<String>) -> (r: bool)
        ensures
            r == is_user(
                opt_view(self.user_email),
                opt_view(self.user_name),
                opt_view(*email),
                opt_view(*name),
            ),
    {
        if let Some(user_email) = &self.user_email {
            if let Some(author_email) = email {
                if text_eq(author_email.as_str(), user_email.as_str()) || text_contains(
                    author_email.as_str(),
                    user_email.as_str(),
                ) {
                    return true;
                }
            }
        }
        if let Some(user_name) = &self.user_name {
            if let Some(author_name) = name {
                if text_eq(author_name.as_str(), user_name.as_str()) || text_contains(
                    author_name.as_str(),
                    user_name.as_str(),
                ) {
                    return true;
                }
            }
        }
        false
    }

    /// Aggregates the blame of the lines `start_line..=end_line` (1-based);
    /// `lines` holds one entry per line of the range, `None` where blame
    /// gave no commit for the line.
    pub fn analyze_blame(
        &self,
        lines: &Vec<Option<BlameLine>>,
        start_line: usize,
        end_line: usize,
    ) -> (r: AuthorshipInfo)
        requires
            lines@.len() == range_len(start_line as int, end_line as int),
        ensures
            mode_matches(emails_of(lines@), r.author_email, r.email_agreement as int),
            r.email_lines == emails_of(lines@).len(),
            mode_matches(names_of(lines@), r.author_name, r.name_agreement as int),
            r.name_lines == names_of(lines@).len(),
            opt_view(r.commit_sha) == first_commit(lines@),
            r.user_lines == user_line_count(
                opt_view(self.user_email),
                opt_view(self.user_name),
                lines@,
            ),
            r.total_lines == range_len(start_line as int, end_line as int),
            r.is_self_authored == self_authored(r.user_lines as int, r.total_lines as int),
            r.user_lines <= r.total_lines,
            r.email_agreement <= r.email_lines,
            r.name_agreement <= r.name_lines,
            r.email_lines <= r.total_lines,
            r.name_lines <= r.total_lines,
            0 <= contribution_fraction(r.user_lines as int, r.total_lines as int).0
                <= contribution_fraction(r.user_lines as int, r.total_lines as int).1,
            0 <= agreement_fraction(r.email_agreement as int, r.email_lines as int).0
                <= agreement_fraction(r.email_agreement as int, r.email_lines as int).1,
            0 <= agreement_fraction(r.name_agreement as int, r.name_lines as int).0
                <= agreement_fraction(r.name_agreement as int, r.name_lines as int).1,
            start_line > end_line ==> r.total_lines == 0 && contribution_fraction(
                r.user_lines as int,
                r.total_lines as int,
            ) == (1int, 1int) && r.is_self_authored,
            lines@.len() == 0 ==> agreement_fraction(r.email_agreement as int, r.email_lines as int).0
                == 0 && agreement_fraction(r.name_agreement as int, r.name_lines as int).0 == 0,
    {
        let mut emails: Vec<String> = Vec::new();
        let mut names: Vec<String> = Vec::new();
        let mut first: Option<String> = None;
        let mut user: usize = 0;
        let mut i: usize = 0;
        assert(lines@.subrange(0, lines@.len() as int) =~= lines@);
        while i < lines.len()
            invariant
                i <= lines.len(),
                strs_view(emails@) == emails_of(lines@.take(i as int)),
                strs_view(names@) == names_of(lines@.take(i as int)),
                emails@.len() <= i,
                names@.len() <= i,
                user as nat == user_line_count(
                    opt_view(self.user_email),
                    opt_view(self.user_name),
                    lines@.take(i as int),
                ),
                user <= i,
                match first {
                    Some(f) => Some(f@) == first_commit(lines@),
                    None => first_commit(lines@) == first_commit(lines@.subrange(i as int, lines@.len() as int)),
                },
            decreases lines.len() - i,
        {
            let ghost pre = lines@.take(i as int);
            let ghost next = lines@.take(i + 1);
            assert(next.drop_last() =~= pre);
            assert(lines@.subrange(i as int, lines@.len() as int).drop_first() =~= lines@.subrange(i + 1, lines@.len() as int));
            match &lines[i] {
                Some(b) => {
                    match &b.email {
                        Some(e) => {
                            emails.push(e.clone());
                        },
                        None => {},
                    }
                    match &b.name {
                        Some(n) => {
                            names.push(n.clone());
                        },
                        None => {},
                    }
                    if first.is_none() {
                        first = Some(b.commit_sha.clone());
                    }
                    if self.is_user_author(&b.email, &b.name) {
                        user = user + 1;
                    }
                },
                None => {},
            }
            assert(strs_view(emails@) =~= emails_of(next));
            assert(strs_view(names@) =~= names_of(next));
            i = i + 1;
        }
        assert(lines@.take(lines@.len() as int) =~= lines@);
        let ghost ev = strs_view(emails@);
        let ghost nv = strs_view(names@);
        let (author_email, email_agreement) = match most_common(&emails) {
            Some((k, c)) => {
                proof {
                    lemma_count_bounded(ev, ev[k as int], ev.len() as int);
                }
                (Some(emails[k].clone()), c)
            },
            None => (None, 0),
        };
        let (author_name, name_agreement) = match most_common(&names) {
            Some((k, c)) => {
                proof {
                    lemma_count_bounded(nv, nv[k as int], nv.len() as int);
                }
                (Some(names[k].clone()), c)
            },
            None => (None, 0),
        };
        AuthorshipInfo {
            author_email,
            author_name,
            commit_sha: first,
            user_lines: user,
            total_lines: lines.len(),
            email_agreement,
            email_lines: emails.len(),
            name_agreement,
            name_lines: names.len(),
            is_self_authored: meets_self_threshold(user, lines.len()),
        }
    }
}

} // verus!
