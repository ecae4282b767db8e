//! Judging a Git checkout from what `git status`, `git remote -v` and the
//! count of unpushed commits report: a personal fork, or a clean clone.
use crate::models::ProgramState;
use crate::names::{name_views, sorted_unique, strictly_sorted};
use crate::paths::{lowercase, to_lowercase};
use crate::text::{chars_of, contains, contains_lit, decimal, decimal_chars, is_lit, join, join_chars, lines, lines_of, push_str, string_of, trim, trim_chars, views, words};
use vstd::prelude::*;

verus! {

pub open spec fn digit_value(c: char) -> int {
    (c as int) - ('0' as int)
}

/// The number written by the decimal digits `s`.
pub open spec fn digits_value(s: Seq<char>) -> int
    decreases s.len(),
{
    if s.len() == 0 { 0 } else { digits_value(s.drop_last()) * 10 + digit_value(s.last()) }
}

pub open spec fn all_digits(s: Seq<char>) -> bool {
    forall|i: int| 0 <= i < s.len() ==> '0' <= #[trigger] s[i] <= '9'
}

/// What `str::parse::<usize>` gives: an optional `+` and at least one digit,
/// with a value that fits.
pub open spec fn parsed_count(s: Seq<char>) -> Option<int> {
    let d = if s.len() > 0 && s[0] == '+' { s.subrange(1, s.len() as int) } else { s };
    if d.len() > 0 && all_digits(d) && digits_value(d) <= usize::MAX { Some(digits_value(d)) } else { None }
}

proof fn lemma_digits_value_nonneg(s: Seq<char>)
    requires
        all_digits(s),
    ensures
        digits_value(s) >= 0,
    decreases s.len(),
{
    if s.len() > 0 {
        lemma_digits_value_nonneg(s.drop_last());
    }
}

/// The count that a line of text holds, when it holds one.
pub fn parse_count(s: &[char]) -> (r: Option<usize>)
    ensures
        r matches Some(v) ==> parsed_count(s@) == Some(v as int),
        r is None ==> parsed_count(s@) is None,
{
    let start: usize = if s.len() > 0 && s[0] == '+' { 1 } else { 0 };
    let ghost d = if s@.len() > 0 && s@[0] == '+' { s@.subrange(1, s@.len() as int) } else { s@ };
    proof {
        assert(d =~= s@.subrange(start as int, s@.len() as int));
    }
    if start >= s.len() {
        return None;
    }
    let mut value: usize = 0;
    let mut i = start;
    while i < s.len()
        invariant
            start <= i <= s@.len(),
            d =~= s@.subrange(start as int, s@.len() as int),
            parsed_count(s@) == (if d.len() > 0 && all_digits(d) && digits_value(d) <= usize::MAX { Some(digits_value(d)) } else { None }),
            all_digits(s@.subrange(start as int, i as int)),
            value as int == digits_value(s@.subrange(start as int, i as int)),
        decreases s@.len() - i,
    {
        let c = s[i];
        proof {
            assert(s@.subrange(start as int, i + 1).drop_last() =~= s@.subrange(start as int, i as int));
        }
        if !('0' <= c && c <= '9') {
            proof {
                assert(d[i - start] == c);
                assert(!all_digits(d));
            }
            return None;
        }
        let digit = (c as u32 - '0' as u32) as usize;
        match value.checked_mul(10) {
            Some(m) => match m.checked_add(digit) {
                Some(v) => {
                    value = v;
                },
                None => {
                    proof {
                        lemma_digits_tail_bound(d, s@, start as int, i as int);
                    }
                    return None;
                },
            },
            None => {
                proof {
                    lemma_digits_tail_bound(d, s@, start as int, i as int);
                }
                return None;
            },
        }
        i += 1;
        proof {
            assert forall|j: int| 0 <= j < s@.subrange(start as int, i as int).len() implies '0' <= #[trigger] s@.subrange(start as int, i as int)[j] <= '9' by {
                if j < i - 1 - start {
                    assert(s@.subrange(start as int, i as int)[j] == s@.subrange(start as int, i - 1)[j]);
                }
            }
        }
    }
    proof {
        assert(s@.subrange(start as int, s@.len() as int) =~= d);
    }
    Some(value)
}

/// Once a prefix of the digits overflows, so does the whole number.
proof fn lemma_digits_tail_bound(d: Seq<char>, s: Seq<char>, start: int, i: int)
    requires
        0 <= start <= i < s.len(),
        d =~= s.subrange(start, s.len() as int),
        all_digits(s.subrange(start, i)),
        '0' <= s[i] <= '9',
        digits_value(s.subrange(start, i)) * 10 + digit_value(s[i]) > usize::MAX,
    ensures
        !(all_digits(d) && digits_value(d) <= usize::MAX),
{
    if all_digits(d) {
        lemma_digits_prefix_grows(d, i + 1 - start);
        assert(d.subrange(0, i + 1 - start) =~= s.subrange(start, i + 1));
        assert(s.subrange(start, i + 1).drop_last() =~= s.subrange(start, i));
    }
}

/// A longer run of digits is worth at least as much as its prefix.
proof fn lemma_digits_prefix_grows(d: Seq<char>, k: int)
    requires
        all_digits(d),
        0 <= k <= d.len(),
    ensures
        digits_value(d) >= digits_value(d.subrange(0, k)),
    decreases d.len() - k,
{
    if k < d.len() {
        lemma_digits_prefix_grows(d, k + 1);
        let p = d.subrange(0, k + 1);
        assert(p.drop_last() =~= d.subrange(0, k));
        assert(all_digits(d.subrange(0, k))) by {
            assert forall|i: int| 0 <= i < k implies '0' <= #[trigger] d.subrange(0, k)[i] <= '9' by {
                assert(d.subrange(0, k)[i] == d[i]);
            }
        }
        lemma_digits_value_nonneg(d.subrange(0, k));
    } else {
        assert(d.subrange(0, k) =~= d);
    }
}

/// The distinct remote names that `git remote -v` lists (the first word of
/// each line), in order.
pub open spec fn remote_names(remotes: Seq<char>) -> Seq<Seq<char>> {
    crate::pacman::first_words(lines_of(remotes))
}

/// What makes a checkout a personal fork rather than a clean clone.
pub struct ForkSigns {
    pub dirty: bool,
    pub remote_count: nat,
    pub fork_remote: bool,
    pub user_remote: bool,
    pub ahead: int,
}

pub open spec fn is_fork_remote(name: Seq<char>) -> bool {
    name == "github"@ || name == "fork"@ || name == "upstream"@ || name == "personal"@
}

/// The signs read from the three reports: uncommitted changes, how many
/// distinct remotes, a remote named like a fork, a remote URL of the user's
/// own, and the number of commits ahead of upstream (0 when unreadable).
pub open spec fn fork_signs(status: Seq<char>, remotes: Seq<char>, ahead: Seq<char>) -> ForkSigns {
    let names = remote_names(remotes);
    let lower = lowercase(remotes);
    ForkSigns {
        dirty: trim(status).len() > 0,
        remote_count: names.to_set().len(),
        fork_remote: exists|i: int| 0 <= i < names.len() && is_fork_remote(#[trigger] names[i]),
        user_remote: contains(lower, "terrydaktal"@) || contains(lower, "lewis"@),
        ahead: match parsed_count(trim(ahead)) {
            Some(v) => v,
            None => 0,
        },
    }
}

pub open spec fn signs_fork(f: ForkSigns) -> bool {
    f.dirty || f.remote_count > 1 || f.fork_remote || f.user_remote || f.ahead > 0
}

/// The distinct names, counted.
fn distinct_count(names: Vec<String>) -> (r: usize)
    ensures
        r == name_views(names@).to_set().len(),
{
    let ghost nv = name_views(names@);
    let u = sorted_unique(names);
    proof {
        let uv = name_views(u@);
        assert(uv.to_set() =~= nv.to_set()) by {
            assert forall|x: Seq<char>| uv.to_set().contains(x) <==> nv.to_set().contains(x) by {
                assert(uv.contains(x) == nv.contains(x));
            }
        }
        assert(uv.no_duplicates()) by {
            assert forall|i: int, j: int| 0 <= i < uv.len() && 0 <= j < uv.len() && i != j implies uv[i] != uv[j] by {
                if i < j {
                    crate::order::lemma_chars_lt_irrefl(uv[i]);
                    assert(crate::order::chars_lt(uv[i], uv[j]));
                } else {
                    crate::order::lemma_chars_lt_irrefl(uv[j]);
                    assert(crate::order::chars_lt(uv[j], uv[i]));
                }
            }
        }
        uv.unique_seq_to_set();
    }
    u.len()
}

/// The signs of a fork in a checkout, from the three reports.
pub fn read_fork_signs(status: &str, remotes: &str, ahead: &str) -> (r: (bool, usize, bool, bool, usize))
    ensures
        r.0 == fork_signs(status@, remotes@, ahead@).dirty,
        r.1 == fork_signs(status@, remotes@, ahead@).remote_count,
        r.2 == fork_signs(status@, remotes@, ahead@).fork_remote,
        r.3 == fork_signs(status@, remotes@, ahead@).user_remote,
        r.4 == fork_signs(status@, remotes@, ahead@).ahead,
{
    let st = chars_of(status);
    let dirty = trim_chars(&st).len() > 0;
    let names = crate::pacman::parse_package_names(remotes);
    let ghost nv = name_views(names@);
    let mut fork_remote = false;
    let mut k: usize = 0;
    while k < names.len()
        invariant
            nv == name_views(names@),
            k <= names@.len(),
            fork_remote == exists|i: int| 0 <= i < k && is_fork_remote(#[trigger] nv[i]),
        decreases names@.len() - k,
    {
        let n = chars_of(names[k].as_str());
        proof {
            assert(nv[k as int] == n@);
        }
        if is_lit(&n, "github") || is_lit(&n, "fork") || is_lit(&n, "upstream") || is_lit(&n, "personal") {
            fork_remote = true;
        }
        proof {
            if !fork_remote {
                assert forall|i: int| 0 <= i < k + 1 implies !is_fork_remote(#[trigger] nv[i]) by {}
            }
        }
        k += 1;
    }
    let count = distinct_count(names);
    let lower = to_lowercase(remotes);
    let lc = chars_of(lower.as_str());
    let user_remote = contains_lit(&lc, "terrydaktal") || contains_lit(&lc, "lewis");
    let a = chars_of(ahead);
    let at = trim_chars(&a);
    let ahead_count: usize = match parse_count(&at) {
        Some(v) => v,
        None => 0,
    };
    (dirty, count, fork_remote, user_remote, ahead_count)
}

/// How a checkout found under the repositories directory stands: a fork when
/// it has local changes, several or fork-like remotes, a remote of the user's
/// own, or unpushed commits; a clean clone otherwise.
pub fn checkout_state(status: &str, remotes: &str, ahead: &str) -> (r: ProgramState)
    ensures
        r == (if signs_fork(fork_signs(status@, remotes@, ahead@)) {
            ProgramState { fork: true, ..ProgramState::clear() }
        } else {
            ProgramState { cloned: true, ..ProgramState::clear() }
        }),
{
    let (dirty, count, fork_remote, user_remote, ahead_count) = read_fork_signs(status, remotes, ahead);
    if dirty || count > 1 || fork_remote || user_remote || ahead_count > 0 {
        ProgramState { fork: true, ..ProgramState::plain() }
    } else {
        ProgramState { cloned: true, ..ProgramState::plain() }
    }
}

/// The reasons that make a checkout a fork, as shown to the user.
pub open spec fn fork_reasons(status: Seq<char>, f: ForkSigns) -> Seq<Seq<char>> {
    let t = Seq::<Seq<char>>::empty();
    let t = crate::text::push_if(t, f.remote_count > 1 || f.user_remote || f.fork_remote, decimal(f.remote_count) + " remotes"@);
    let t = crate::text::push_if(t, f.dirty, decimal(lines_of(status).len()) + " dirty files"@);
    let t = crate::text::push_if(t, f.ahead > 0, decimal(f.ahead as nat) + " commits ahead"@);
    t
}

/// The badge code and the description of a checkout: `FRK` with the reasons
/// for a fork, `CLO` for a clean clone.
pub open spec fn repo_verdict(status: Seq<char>, remotes: Seq<char>, ahead: Seq<char>) -> (Seq<char>, Seq<char>) {
    let f = fork_signs(status, remotes, ahead);
    if signs_fork(f) {
        let reasons = fork_reasons(status, f);
        ("FRK"@, if reasons.len() == 0 { "Git Fork Repo (~/repos)"@ } else { "Git Fork Repo ("@ + join(reasons, ", "@) + ")"@ })
    } else {
        ("CLO"@, "Cloned Upstream Repo (Clean, 1 remote)"@)
    }
}

fn reason(n: usize, text: &str) -> (r: Vec<char>)
    ensures
        r@ == decimal(n as nat) + text@,
{
    let mut v = decimal_chars(n);
    push_str(&mut v, text);
    v
}

/// What a Git checkout is, from the reports of `git status --porcelain`,
/// `git remote -v` and `git rev-list --count @{u}..HEAD`.
pub fn inspect_git_repo(status_out: &str, remotes_out: &str, ahead_tracking: &str) -> (r: (String, String))
    ensures
        (r.0@, r.1@) == repo_verdict(status_out@, remotes_out@, ahead_tracking@),
{
    let (dirty, count, fork_remote, user_remote, ahead_count) = read_fork_signs(status_out, remotes_out, ahead_tracking);
    if !(dirty || count > 1 || fork_remote || user_remote || ahead_count > 0) {
        return (string_of(&chars_of("CLO")), string_of(&chars_of("Cloned Upstream Repo (Clean, 1 remote)")));
    }
    let ghost f = fork_signs(status_out@, remotes_out@, ahead_tracking@);
    let mut reasons: Vec<Vec<char>> = Vec::new();
    proof {
        assert(views(reasons@) =~= Seq::<Seq<char>>::empty());
    }
    if count > 1 || user_remote || fork_remote {
        let ghost before = views(reasons@);
        reasons.push(reason(count, " remotes"));
        proof {
            assert(views(reasons@) =~= before.push(decimal(f.remote_count) + " remotes"@));
        }
    }
    if dirty {
        let st = chars_of(status_out);
        let ls = lines(&st);
        let ghost before = views(reasons@);
        reasons.push(reason(ls.len(), " dirty files"));
        proof {
            assert(views(ls@).len() == ls@.len());
            assert(views(reasons@) =~= before.push(decimal(lines_of(status_out@).len()) + " dirty files"@));
        }
    }
    if ahead_count > 0 {
        let ghost before = views(reasons@);
        reasons.push(reason(ahead_count, " commits ahead"));
        proof {
            assert(views(reasons@) =~= before.push(decimal(f.ahead as nat) + " commits ahead"@));
        }
    }
    let mut detail: Vec<char> = Vec::new();
    if reasons.len() == 0 {
        push_str(&mut detail, "Git Fork Repo (~/repos)");
    } else {
        push_str(&mut detail, "Git Fork Repo (");
        let sep = chars_of(", ");
        let joined = join_chars(&reasons, &sep);
        crate::text::push_chars(&mut detail, &joined);
        push_str(&mut detail, ")");
    }
    proof {
        assert(views(reasons@) == fork_reasons(status_out@, f));
    }
    (string_of(&chars_of("FRK")), string_of(&detail))
}

} // verus!
