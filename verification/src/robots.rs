//! The robots-policy engine: parsed per-domain crawl-permission rules,
//! the wildcard pattern matcher, and longest-match-wins rule evaluation.

use vstd::prelude::*;
use vstd::string::StrSliceExecFns;

use crate::models::views_of;
use crate::text::{
    eq_ignore_case, find_char_from, lemma_prefix_len_until_unique, lower_seq, prefix_len_until,
    spec_trim, str_eq, string_eq, trim_bounds,
};
use crate::urls::{domain_key, spec_domain_key, UrlParts};

verus! {

/// One `Allow` or `Disallow` line of a robots.txt rule-group.
#[derive(Debug)]
pub struct Rule {
    pub pattern: String,
    pub is_allow: bool,
}

#[verifier::ext_equal]
pub ghost struct RuleModel {
    pub pattern: Seq<char>,
    pub is_allow: bool,
}

impl View for Rule {
    type V = RuleModel;

    open spec fn view(&self) -> RuleModel {
        RuleModel { pattern: self.pattern@, is_allow: self.is_allow }
    }
}

pub fn clone_rule(r: &Rule) -> (res: Rule)
    ensures
        res@ == r@,
{
    Rule { pattern: r.pattern.clone(), is_allow: r.is_allow }
}

pub fn clone_rules(rules: &Vec<Rule>) -> (res: Vec<Rule>)
    ensures
        views_of(res@) == views_of(rules@),
{
    let mut res: Vec<Rule> = Vec::new();
    let n = rules.len();
    let mut i: usize = 0;
    while i < n
        invariant
            0 <= i <= n,
            n == rules@.len(),
            res@.len() == i,
            forall|j: int| 0 <= j < i ==> #[trigger] res@[j]@ == rules@[j]@,
        decreases n - i,
    {
        res.push(clone_rule(&rules[i]));
        i = i + 1;
    }
    proof {
        assert(views_of(res@) =~= views_of(rules@));
    }
    res
}

/// Whether `pat` matches `path`, where `*` may stand for any sequence of
/// characters and, when `must_end` is set, the whole of `path` has to be
/// consumed.
pub open spec fn spec_match_from(pat: Seq<char>, path: Seq<char>, must_end: bool) -> bool
    decreases pat.len(), path.len(),
{
    if pat.len() == 0 {
        !must_end || path.len() == 0
    } else if pat[0] == '*' {
        exists|i: int|
            0 <= i <= path.len() && spec_match_from(pat.skip(1), #[trigger] path.skip(i), must_end)
    } else {
        path.len() > 0 && path[0] == pat[0] && spec_match_from(pat.skip(1), path.skip(1), must_end)
    }
}

/// Whether a robots.txt pattern matches a request path: literal equality is
/// always a match; a trailing `$` anchors the pattern to the end of the
/// path; `*` matches any stretch of characters.
pub open spec fn spec_path_matches(pattern: Seq<char>, path: Seq<char>) -> bool {
    if pattern == path {
        true
    } else {
        let must_end = pattern.len() > 0 && pattern.last() == '$';
        let pat = if must_end {
            pattern.drop_last()
        } else {
            pattern
        };
        spec_match_from(pat, path, must_end)
    }
}

/// The verdict after scanning `rules` in order, starting from an already
/// reached decision `allowed` won by a matching pattern of length
/// `best_len`: every later matching rule whose pattern is at least as long
/// replaces the decision.
pub open spec fn spec_check_rules_from(
    rules: Seq<RuleModel>,
    path: Seq<char>,
    allowed: bool,
    best_len: int,
) -> bool
    decreases rules.len(),
{
    if rules.len() == 0 {
        allowed
    } else {
        let r0 = rules[0];
        if spec_path_matches(r0.pattern, path) && r0.pattern.len() >= best_len {
            spec_check_rules_from(rules.skip(1), path, r0.is_allow, r0.pattern.len() as int)
        } else {
            spec_check_rules_from(rules.skip(1), path, allowed, best_len)
        }
    }
}

/// The verdict of a rule list on a path: the longest matching pattern wins,
/// later declarations winning ties; no matching rule means allowed.
pub open spec fn spec_check_rules(rules: Seq<RuleModel>, path: Seq<char>) -> bool {
    spec_check_rules_from(rules, path, true, 0)
}

/// Whether position `w` holds the decisive rule among those whose
/// pattern is at least `best_len` long: it matches, no matching rule with
/// a pattern at least `best_len` long has a longer one, and no later
/// matching rule has one as long.
pub open spec fn spec_winner_from(
    rules: Seq<RuleModel>,
    path: Seq<char>,
    best_len: int,
    w: int,
) -> bool {
    &&& 0 <= w < rules.len()
    &&& spec_path_matches(rules[w].pattern, path)
    &&& rules[w].pattern.len() >= best_len
    &&& forall|j: int|
        0 <= j < rules.len() && spec_path_matches((#[trigger] rules[j]).pattern, path)
            && rules[j].pattern.len() >= best_len ==> rules[j].pattern.len()
            <= rules[w].pattern.len()
    &&& forall|j: int|
        w < j < rules.len() && spec_path_matches((#[trigger] rules[j]).pattern, path)
            ==> rules[j].pattern.len() < rules[w].pattern.len()
}

/// Whether position `w` holds the decisive rule: it matches, no matching
/// rule has a longer pattern, and no later matching rule has one as long.
pub open spec fn spec_winning_rule(rules: Seq<RuleModel>, path: Seq<char>, w: int) -> bool {
    spec_winner_from(rules, path, 0, w)
}

#[verifier::rlimit(100)]
#[verifier::spinoff_prover]
proof fn lemma_check_rules_from_winner(
    rules: Seq<RuleModel>,
    path: Seq<char>,
    allowed: bool,
    best_len: int,
)
    requires
        best_len >= 0,
    ensures
        ({
            let r = spec_check_rules_from(rules, path, allowed, best_len);
            if exists|i: int|
                0 <= i < rules.len() && spec_path_matches((#[trigger] rules[i]).pattern, path)
                    && rules[i].pattern.len() >= best_len {
                exists|w: int|
                    #[trigger] spec_winner_from(rules, path, best_len, w) && r
                        == rules[w].is_allow
            } else {
                r == allowed
            }
        }),
    decreases rules.len(),
{
    if rules.len() == 0 {
    } else {
        let r = spec_check_rules_from(rules, path, allowed, best_len);
        let r0 = rules[0];
        let rest = rules.skip(1);
        let hit0 = spec_path_matches(r0.pattern, path) && r0.pattern.len() >= best_len;
        if hit0 {
            let l0 = r0.pattern.len() as int;
            lemma_check_rules_from_winner(rest, path, r0.is_allow, l0);
            if exists|i: int|
                0 <= i < rest.len() && spec_path_matches((#[trigger] rest[i]).pattern, path)
                    && rest[i].pattern.len() >= l0 {
                let w1 = choose|w: int|
                    #[trigger] spec_winner_from(rest, path, l0, w) && spec_check_rules_from(
                        rest,
                        path,
                        r0.is_allow,
                        l0,
                    ) == rest[w].is_allow;
                let w = w1 + 1;
                assert(rules[w] == rest[w1]);
                assert forall|j: int|
                    0 <= j < rules.len() && spec_path_matches(
                        (#[trigger] rules[j]).pattern,
                        path,
                    ) && rules[j].pattern.len() >= best_len implies rules[j].pattern.len()
                    <= rules[w].pattern.len() by {
                    if j > 0 {
                        assert(rules[j] == rest[j - 1]);
                        if rest[j - 1].pattern.len() >= l0 {
                            assert(rest[j - 1].pattern.len() <= rest[w1].pattern.len());
                        }
                    }
                }
                assert forall|j: int|
                    w < j < rules.len() && spec_path_matches(
                        (#[trigger] rules[j]).pattern,
                        path,
                    ) implies rules[j].pattern.len() < rules[w].pattern.len() by {
                    assert(rules[j] == rest[j - 1]);
                }
                assert(spec_winner_from(rules, path, best_len, w) && r == rules[w].is_allow);
            } else {
                let w = 0;
                assert forall|j: int|
                    0 <= j < rules.len() && spec_path_matches(
                        (#[trigger] rules[j]).pattern,
                        path,
                    ) && rules[j].pattern.len() >= best_len implies rules[j].pattern.len()
                    <= rules[w].pattern.len() by {
                    if j > 0 {
                        assert(rules[j] == rest[j - 1]);
                        if rest[j - 1].pattern.len() >= l0 {
                            assert(exists|i: int|
                                0 <= i < rest.len() && spec_path_matches(
                                    (#[trigger] rest[i]).pattern,
                                    path,
                                ) && rest[i].pattern.len() >= l0);
                        }
                    }
                }
                assert forall|j: int|
                    w < j < rules.len() && spec_path_matches(
                        (#[trigger] rules[j]).pattern,
                        path,
                    ) implies rules[j].pattern.len() < rules[w].pattern.len() by {
                    assert(rules[j] == rest[j - 1]);
                    if rest[j - 1].pattern.len() >= l0 {
                        assert(exists|i: int|
                            0 <= i < rest.len() && spec_path_matches(
                                (#[trigger] rest[i]).pattern,
                                path,
                            ) && rest[i].pattern.len() >= l0);
                    }
                }
                assert(spec_winner_from(rules, path, best_len, w) && r == rules[w].is_allow);
            }
        } else {
            lemma_check_rules_from_winner(rest, path, allowed, best_len);
            if exists|i: int|
                0 <= i < rules.len() && spec_path_matches((#[trigger] rules[i]).pattern, path)
                    && rules[i].pattern.len() >= best_len {
                let i0 = choose|i: int|
                    0 <= i < rules.len() && spec_path_matches((#[trigger] rules[i]).pattern, path)
                        && rules[i].pattern.len() >= best_len;
                assert(i0 != 0);
                assert(rules[i0] == rest[i0 - 1]);
                assert(exists|i: int|
                    0 <= i < rest.len() && spec_path_matches((#[trigger] rest[i]).pattern, path)
                        && rest[i].pattern.len() >= best_len);
                let w1 = choose|w: int|
                    #[trigger] spec_winner_from(rest, path, best_len, w) && spec_check_rules_from(
                        rest,
                        path,
                        allowed,
                        best_len,
                    ) == rest[w].is_allow;
                let w = w1 + 1;
                assert(rules[w] == rest[w1]);
                assert forall|j: int|
                    0 <= j < rules.len() && spec_path_matches(
                        (#[trigger] rules[j]).pattern,
                        path,
                    ) && rules[j].pattern.len() >= best_len implies rules[j].pattern.len()
                    <= rules[w].pattern.len() by {
                    if j > 0 {
                        assert(rules[j] == rest[j - 1]);
                    }
                }
                assert forall|j: int|
                    w < j < rules.len() && spec_path_matches(
                        (#[trigger] rules[j]).pattern,
                        path,
                    ) implies rules[j].pattern.len() < rules[w].pattern.len() by {
                    assert(rules[j] == rest[j - 1]);
                }
                assert(spec_winner_from(rules, path, best_len, w) && r == rules[w].is_allow);
            }
        }
    }
}

/// Longest match wins: when any rule matches the path, the verdict is the
/// `is_allow` flag of a matching rule whose pattern no other matching rule
/// exceeds in length, later declarations winning ties; and when no rule
/// matches, the path is allowed.
pub proof fn lemma_longest_match_wins(rules: Seq<RuleModel>, path: Seq<char>)
    ensures
        (exists|i: int|
            0 <= i < rules.len() && spec_path_matches((#[trigger] rules[i]).pattern, path))
            ==> exists|w: int|
            #[trigger] spec_winning_rule(rules, path, w) && spec_check_rules(rules, path)
                == rules[w].is_allow,
        (forall|i: int|
            0 <= i < rules.len() ==> !spec_path_matches((#[trigger] rules[i]).pattern, path))
            ==> spec_check_rules(rules, path),
{
    lemma_check_rules_from_winner(rules, path, true, 0);
    if exists|i: int|
        0 <= i < rules.len() && spec_path_matches((#[trigger] rules[i]).pattern, path) {
        let w = choose|w: int|
            #[trigger] spec_winner_from(rules, path, 0, w) && spec_check_rules_from(
                rules,
                path,
                true,
                0,
            ) == rules[w].is_allow;
        assert(spec_winning_rule(rules, path, w));
    }
}

/// Matches `pat[pi..pe]` against `path[qi..]`.
fn match_from(pat: &Vec<char>, pi: usize, pe: usize, path: &Vec<char>, qi: usize, must_end: bool) -> (r:
    bool)
    requires
        pi <= pe <= pat@.len(),
        qi <= path@.len(),
    ensures
        r == spec_match_from(pat@.subrange(pi as int, pe as int), path@.skip(qi as int), must_end),
    decreases pe - pi, path@.len() - qi,
{
    let ghost sub = pat@.subrange(pi as int, pe as int);
    let ghost rest = path@.skip(qi as int);
    if pi == pe {
        proof {
            assert(sub.len() == 0);
        }
        !must_end || qi == path.len()
    } else if pat[pi] == '*' {
        proof {
            assert(sub[0] == '*');
            assert(sub.skip(1) =~= pat@.subrange(pi + 1, pe as int));
        }
        let n = path.len();
        let mut i: usize = qi;
        while i < n
            invariant
                qi <= i <= n,
                pi < pe <= pat@.len(),
                n == path@.len(),
                pat@[pi as int] == '*',
                sub == pat@.subrange(pi as int, pe as int),
                rest == path@.skip(qi as int),
                sub.len() > 0 && sub[0] == '*',
                sub.skip(1) == pat@.subrange(pi + 1, pe as int),
                forall|k: int|
                    qi <= k < i ==> !spec_match_from(
                        pat@.subrange(pi + 1, pe as int),
                        #[trigger] path@.skip(k),
                        must_end,
                    ),
            decreases n - i,
        {
            if match_from(pat, pi + 1, pe, path, i, must_end) {
                proof {
                    assert(path@.skip(i as int) =~= rest.skip(i - qi));
                    assert(0 <= i - qi <= rest.len() && spec_match_from(
                        sub.skip(1),
                        rest.skip(i - qi),
                        must_end,
                    ));
                }
                return true;
            }
            i = i + 1;
        }
        if match_from(pat, pi + 1, pe, path, n, must_end) {
            proof {
                assert(path@.skip(n as int) =~= rest.skip(n - qi));
                assert(0 <= n - qi <= rest.len() && spec_match_from(
                    sub.skip(1),
                    rest.skip(n - qi),
                    must_end,
                ));
            }
            return true;
        }
        proof {
            assert forall|k: int| 0 <= k <= rest.len() implies !spec_match_from(
                sub.skip(1),
                #[trigger] rest.skip(k),
                must_end,
            ) by {
                assert(rest.skip(k) =~= path@.skip(qi + k));
                if k < rest.len() {
                    assert(!spec_match_from(
                        pat@.subrange(pi + 1, pe as int),
                        path@.skip(qi + k),
                        must_end,
                    ));
                } else {
                    assert(qi + k == path@.len());
                    assert(!spec_match_from(
                        pat@.subrange(pi + 1, pe as int),
                        path@.skip(n as int),
                        must_end,
                    ));
                }
            }
        }
        false
    } else {
        proof {
            assert(sub[0] == pat@[pi as int]);
            assert(sub[0] != '*');
            assert(sub.skip(1) =~= pat@.subrange(pi + 1, pe as int));
        }
        if qi < path.len() && path[qi] == pat[pi] {
            proof {
                assert(rest[0] == path@[qi as int]);
                assert(rest.skip(1) =~= path@.skip(qi + 1));
            }
            match_from(pat, pi + 1, pe, path, qi + 1, must_end)
        } else {
            proof {
                if rest.len() > 0 {
                    assert(rest[0] == path@[qi as int]);
                }
            }
            false
        }
    }
}

/// `content` split at every newline. A trailing newline yields a final
/// empty line, which the parser skips.
pub open spec fn spec_lines(s: Seq<char>) -> Seq<Seq<char>>
    decreases s.len(),
{
    let k = prefix_len_until(s, '\n');
    if 0 <= k < s.len() {
        seq![s.subrange(0, k)] + spec_lines(s.subrange(k + 1, s.len() as int))
    } else {
        seq![s]
    }
}

/// What one robots.txt line means: `None` for a line the parser skips,
/// `Some((agent, None))` for a `user-agent` line, and
/// `Some((pattern, Some(is_allow)))` for an `allow` or `disallow` line.
pub open spec fn spec_classify_line(line: Seq<char>) -> Option<(Seq<char>, Option<bool>)> {
    let t = spec_trim(line);
    if t.len() == 0 || t[0] == '#' {
        None
    } else {
        let ci = prefix_len_until(t, ':');
        if ci == t.len() {
            None
        } else {
            let field = spec_trim(t.subrange(0, ci));
            let value = spec_trim(t.subrange(ci + 1, t.len() as int));
            if lower_seq(field) == lower_seq("user-agent"@) {
                Some((value, None))
            } else if lower_seq(field) == lower_seq("disallow"@) {
                if value.len() == 0 {
                    None
                } else {
                    Some((value, Some(false)))
                }
            } else if lower_seq(field) == lower_seq("allow"@) {
                if value.len() == 0 {
                    None
                } else {
                    Some((value, Some(true)))
                }
            } else {
                None
            }
        }
    }
}

pub open spec fn spec_group_matches(
    g: RuleGroupModel,
    domain: Seq<char>,
    agent_lower: Seq<char>,
) -> bool {
    g.domain == domain && lower_seq(g.agent) == agent_lower
}

/// The position of the first group for `domain` and the lowercased agent
/// `agent_lower`; the length of `groups` when there is none.
pub open spec fn spec_group_idx(
    groups: Seq<RuleGroupModel>,
    domain: Seq<char>,
    agent_lower: Seq<char>,
) -> int
    decreases groups.len(),
{
    if groups.len() == 0 {
        0
    } else if spec_group_matches(groups[0], domain, agent_lower) {
        0
    } else {
        1 + spec_group_idx(groups.skip(1), domain, agent_lower)
    }
}

pub proof fn lemma_group_idx_unique(
    groups: Seq<RuleGroupModel>,
    domain: Seq<char>,
    agent_lower: Seq<char>,
    k: int,
)
    requires
        0 <= k <= groups.len(),
        forall|j: int| 0 <= j < k ==> !spec_group_matches(groups[j], domain, agent_lower),
        k < groups.len() ==> spec_group_matches(groups[k], domain, agent_lower),
    ensures
        spec_group_idx(groups, domain, agent_lower) == k,
    decreases groups.len(),
{
    if groups.len() == 0 {
    } else if k == 0 {
    } else {
        assert(!spec_group_matches(groups[0], domain, agent_lower));
        assert forall|j: int| 0 <= j < k - 1 implies !spec_group_matches(
            groups.skip(1)[j],
            domain,
            agent_lower,
        ) by {
            assert(groups.skip(1)[j] == groups[j + 1]);
        }
        lemma_group_idx_unique(groups.skip(1), domain, agent_lower, k - 1);
    }
}

/// Stores `g`, replacing the group already held for the same domain and
/// (case-insensitive) agent if there is one.
pub open spec fn spec_insert_group(
    groups: Seq<RuleGroupModel>,
    g: RuleGroupModel,
) -> Seq<RuleGroupModel> {
    let i = spec_group_idx(groups, g.domain, lower_seq(g.agent));
    if i < groups.len() {
        groups.update(i, g)
    } else {
        groups.push(g)
    }
}

/// Stores one pending rule list under every pending agent name, in order.
/// Nothing is stored when there are no rules or no agents.
pub open spec fn spec_flush(
    groups: Seq<RuleGroupModel>,
    domain: Seq<char>,
    agents: Seq<Seq<char>>,
    rules: Seq<RuleModel>,
) -> Seq<RuleGroupModel>
    decreases agents.len(),
{
    if rules.len() == 0 || agents.len() == 0 {
        groups
    } else {
        spec_flush(
            spec_insert_group(
                groups,
                RuleGroupModel { domain: domain, agent: agents[0], rules: rules },
            ),
            domain,
            agents.skip(1),
            rules,
        )
    }
}

/// The rule-group machine over the remaining lines: `user-agent` lines
/// open a group (several in a row share the pending rule list), rule lines
/// accumulate, and a group is stored when the next group opens or input
/// ends.
pub open spec fn spec_parse_lines(
    lines: Seq<Seq<char>>,
    domain: Seq<char>,
    agents: Seq<Seq<char>>,
    rules: Seq<RuleModel>,
    groups: Seq<RuleGroupModel>,
) -> Seq<RuleGroupModel>
    decreases lines.len(),
{
    if lines.len() == 0 {
        spec_flush(groups, domain, agents, rules)
    } else {
        match spec_classify_line(lines[0]) {
            None => spec_parse_lines(lines.skip(1), domain, agents, rules, groups),
            Some((v, None)) => if rules.len() > 0 {
                spec_parse_lines(
                    lines.skip(1),
                    domain,
                    seq![v],
                    Seq::<RuleModel>::empty(),
                    spec_flush(groups, domain, agents, rules),
                )
            } else {
                spec_parse_lines(lines.skip(1), domain, agents.push(v), rules, groups)
            },
            Some((p, Some(allow))) => spec_parse_lines(
                lines.skip(1),
                domain,
                agents,
                rules.push(RuleModel { pattern: p, is_allow: allow }),
                groups,
            ),
        }
    }
}

/// What parsing `content` under `domain` adds to an existing rule store.
pub open spec fn spec_parse(
    groups: Seq<RuleGroupModel>,
    domain: Seq<char>,
    content: Seq<char>,
) -> Seq<RuleGroupModel> {
    spec_parse_lines(
        spec_lines(content),
        domain,
        Seq::<Seq<char>>::empty(),
        Seq::<RuleModel>::empty(),
        groups,
    )
}

/// One classified robots.txt line.
enum LineItem {
    SkipLine,
    AgentLine(String),
    PatternLine(String, bool),
}

/// Splits `content` at newlines.
fn split_lines(content: &str) -> (r: Vec<String>)
    ensures
        views_of(r@) == spec_lines(content@),
{
    let n = content.unicode_len();
    let mut acc: Vec<String> = Vec::new();
    let mut pos: usize = 0;
    proof {
        assert(content@.subrange(0, n as int) =~= content@);
        assert(views_of(acc@) + spec_lines(content@) =~= spec_lines(content@));
    }
    loop
        invariant_except_break
            0 <= pos <= n,
            n == content@.len(),
            views_of(acc@) + spec_lines(content@.subrange(pos as int, n as int)) == spec_lines(
                content@,
            ),
        ensures
            views_of(acc@) == spec_lines(content@),
        decreases n - pos,
    {
        let ghost suffix = content@.subrange(pos as int, n as int);
        match find_char_from(content, '\n', pos) {
            Some(j) => {
                let line = content.substring_char(pos, j).to_owned();
                proof {
                    assert forall|t: int| 0 <= t < j - pos implies suffix[t] != '\n' by {
                        assert(suffix[t] == content@[pos + t]);
                    }
                    assert(suffix[j - pos] == '\n');
                    lemma_prefix_len_until_unique(suffix, '\n', j - pos);
                    assert(suffix.subrange(0, j - pos) =~= line@);
                    assert(suffix.subrange(j - pos + 1, suffix.len() as int) =~= content@.subrange(
                        j + 1,
                        n as int,
                    ));
                }
                acc.push(line);
                proof {
                    assert(views_of(acc@) =~= views_of(acc@.drop_last()).push(line@));
                    assert(views_of(acc@) + spec_lines(content@.subrange(j + 1, n as int))
                        =~= views_of(acc@.drop_last()) + spec_lines(suffix));
                }
                pos = j + 1;
            },
            None => {
                let line = content.substring_char(pos, n).to_owned();
                proof {
                    assert forall|t: int| 0 <= t < suffix.len() implies suffix[t] != '\n' by {
                        assert(suffix[t] == content@[pos + t]);
                    }
                    lemma_prefix_len_until_unique(suffix, '\n', suffix.len() as int);
                    assert(suffix =~= line@);
                }
                acc.push(line);
                proof {
                    assert(views_of(acc@) =~= views_of(acc@.drop_last()).push(line@));
                    assert(views_of(acc@) =~= views_of(acc@.drop_last()) + spec_lines(suffix));
                }
                break;
            },
        }
    }
    acc
}

/// Classifies one line as the parser does: trim, skip blanks and comments,
/// split at the first colon, and read the field name case-insensitively.
fn classify_line(line: &str) -> (r: LineItem)
    ensures
        match r {
            LineItem::SkipLine => spec_classify_line(line@) is None,
            LineItem::AgentLine(v) => spec_classify_line(line@) == Some((v@, None::<bool>)),
            LineItem::PatternLine(p, al) => spec_classify_line(line@) == Some((p@, Some(al))),
        },
{
    let ghost t = spec_trim(line@);
    let (ts, te) = trim_bounds(line);
    if ts == te {
        return LineItem::SkipLine;
    }
    if line.get_char(ts) == '#' {
        proof {
            assert(t[0] == line@[ts as int]);
        }
        return LineItem::SkipLine;
    }
    let colon: Option<usize> = find_char_from(line, ':', ts);
    let ci: usize = match colon {
        None => {
            proof {
                assert forall|j: int| 0 <= j < t.len() implies t[j] != ':' by {
                    assert(t[j] == line@[ts + j]);
                }
                lemma_prefix_len_until_unique(t, ':', t.len() as int);
            }
            return LineItem::SkipLine;
        },
        Some(c) => c,
    };
    if ci >= te {
        proof {
            assert forall|j: int| 0 <= j < t.len() implies t[j] != ':' by {
                assert(t[j] == line@[ts + j]);
            }
            lemma_prefix_len_until_unique(t, ':', t.len() as int);
        }
        return LineItem::SkipLine;
    }
    proof {
        assert forall|j: int| 0 <= j < ci - ts implies t[j] != ':' by {
            assert(t[j] == line@[ts + j]);
        }
        assert(t[ci - ts] == line@[ci as int]);
        lemma_prefix_len_until_unique(t, ':', ci - ts);
    }
    let field_raw = line.substring_char(ts, ci);
    proof {
        assert(field_raw@ =~= t.subrange(0, ci - ts));
    }
    let (fs, fe) = trim_bounds(field_raw);
    let field = field_raw.substring_char(fs, fe);
    let value_raw = line.substring_char(ci + 1, te);
    proof {
        assert(value_raw@ =~= t.subrange(ci - ts + 1, t.len() as int));
    }
    let (vs, ve) = trim_bounds(value_raw);
    let value = value_raw.substring_char(vs, ve);
    if eq_ignore_case(field, "user-agent") {
        LineItem::AgentLine(value.to_owned())
    } else if eq_ignore_case(field, "disallow") {
        if vs == ve {
            LineItem::SkipLine
        } else {
            LineItem::PatternLine(value.to_owned(), false)
        }
    } else if eq_ignore_case(field, "allow") {
        if vs == ve {
            LineItem::SkipLine
        } else {
            LineItem::PatternLine(value.to_owned(), true)
        }
    } else {
        LineItem::SkipLine
    }
}

/// Parsed robots.txt rules, grouped per domain and user agent, together
/// with the set of domains whose policy has already been requested.
#[derive(Debug)]
pub struct RobotsTxt {
    pub groups: Vec<RuleGroup>,
    pub fetched: Vec<String>,
}

/// The rules declared for one user agent under one domain.
#[derive(Debug)]
pub struct RuleGroup {
    pub domain: String,
    pub agent: String,
    pub rules: Vec<Rule>,
}

#[verifier::ext_equal]
pub ghost struct RuleGroupModel {
    pub domain: Seq<char>,
    pub agent: Seq<char>,
    pub rules: Seq<RuleModel>,
}

impl View for RuleGroup {
    type V = RuleGroupModel;

    open spec fn view(&self) -> RuleGroupModel {
        RuleGroupModel { domain: self.domain@, agent: self.agent@, rules: views_of(self.rules@) }
    }
}

impl RobotsTxt {
    pub open spec fn groups_view(self) -> Seq<RuleGroupModel> {
        views_of(self.groups@)
    }

    pub open spec fn fetched_view(self) -> Seq<Seq<char>> {
        self.fetched.deep_view()
    }

    pub fn new() -> (r: Self)
        ensures
            r.groups_view() == Seq::<RuleGroupModel>::empty(),
            r.fetched_view() == Seq::<Seq<char>>::empty(),
    {
        let r = RobotsTxt { groups: Vec::new(), fetched: Vec::new() };
        proof {
            assert(r.groups_view() =~= Seq::<RuleGroupModel>::empty());
            assert(r.fetched_view() =~= Seq::<Seq<char>>::empty());
        }
        r
    }

    /// Whether a robots.txt pattern matches a request path, under the
    /// de-facto extensions: a trailing `$` anchors the match to the end of
    /// the path, and `*` matches any stretch of characters.
    pub fn path_matches(&self, pattern: &str, path: &str) -> (r: bool)
        ensures
            r == spec_path_matches(pattern@, path@),
    {
        if str_eq(pattern, path) {
            return true;
        }
        let patv = crate::text::to_chars(pattern);
        let pathv = crate::text::to_chars(path);
        let plen = patv.len();
        let must_end: bool = plen > 0 && patv[plen - 1] == '$';
        let pe: usize = if must_end {
            plen - 1
        } else {
            plen
        };
        proof {
            if must_end {
                assert(patv@.subrange(0, pe as int) =~= pattern@.drop_last());
            } else {
                assert(patv@.subrange(0, pe as int) =~= pattern@);
            }
            assert(pathv@.skip(0) =~= path@);
        }
        match_from(&patv, 0, pe, &pathv, 0, must_end)
    }

    /// Evaluates `path` against `rules` in declaration order; the longest
    /// matching pattern decides, later rules winning ties; no match allows.
    pub fn check_rules(&self, rules: &[Rule], path: &str) -> (r: bool)
        ensures
            r == spec_check_rules(views_of(rules@), path@),
    {
        let ghost all = views_of(rules@);
        let n = rules.len();
        let mut allowed: bool = true;
        let mut best: usize = 0;
        let mut i: usize = 0;
        proof {
            assert(all.skip(0) =~= all);
        }
        while i < n
            invariant
                0 <= i <= n,
                n == rules@.len(),
                all == views_of(rules@),
                spec_check_rules_from(all.skip(i as int), path@, allowed, best as int)
                    == spec_check_rules(all, path@),
            decreases n - i,
        {
            let ghost pre = all.skip(i as int);
            proof {
                assert(pre[0] == rules@[i as int]@);
                assert(pre.skip(1) =~= all.skip(i + 1));
            }
            let rule = &rules[i];
            if self.path_matches(rule.pattern.as_str(), path) {
                let plen = rule.pattern.as_str().unicode_len();
                if plen >= best {
                    best = plen;
                    allowed = rule.is_allow;
                }
            }
            i = i + 1;
        }
        proof {
            assert(all.skip(n as int) =~= Seq::<RuleModel>::empty());
        }
        allowed
    }

    /// Stores `g`, replacing any group already held for the same domain
    /// and (case-insensitive) agent.
    fn insert_group(&mut self, g: RuleGroup)
        ensures
            final(self).groups_view() == spec_insert_group(old(self).groups_view(), g@),
            final(self).fetched == old(self).fetched,
    {
        let ghost gs = self.groups_view();
        let ghost gm = g@;
        let n = self.groups.len();
        let mut i: usize = 0;
        while i < n
            invariant
                0 <= i <= n,
                n == self.groups@.len(),
                gs == self.groups_view(),
                gm == g@,
                *self == *old(self),
                forall|j: int|
                    0 <= j < i ==> !spec_group_matches(gs[j], gm.domain, lower_seq(gm.agent)),
            decreases n - i,
        {
            let hit = str_eq(self.groups[i].domain.as_str(), g.domain.as_str()) && eq_ignore_case(
                self.groups[i].agent.as_str(),
                g.agent.as_str(),
            );
            if hit {
                proof {
                    assert(spec_group_matches(gs[i as int], gm.domain, lower_seq(gm.agent)));
                    lemma_group_idx_unique(gs, gm.domain, lower_seq(gm.agent), i as int);
                }
                self.groups.set(i, g);
                proof {
                    assert(self.groups_view() =~= gs.update(i as int, gm));
                }
                return;
            }
            i = i + 1;
        }
        proof {
            lemma_group_idx_unique(gs, gm.domain, lower_seq(gm.agent), n as int);
        }
        self.groups.push(g);
        proof {
            assert(self.groups_view() =~= gs.push(gm));
        }
    }

    /// Stores the pending rule list under every pending agent name.
    fn flush_groups(&mut self, domain: &str, agents: &Vec<String>, rules: &Vec<Rule>)
        ensures
            final(self).groups_view() == spec_flush(
                old(self).groups_view(),
                domain@,
                views_of(agents@),
                views_of(rules@),
            ),
            final(self).fetched == old(self).fetched,
    {
        let ghost agent_views = views_of(agents@);
        let ghost rule_views = views_of(rules@);
        let ghost groups0 = self.groups_view();
        if rules.len() == 0 {
            return;
        }
        let n = agents.len();
        let mut i: usize = 0;
        proof {
            assert(agent_views.skip(0) =~= agent_views);
        }
        while i < n
            invariant
                0 <= i <= n,
                n == agents@.len(),
                agent_views == views_of(agents@),
                rule_views == views_of(rules@),
                rule_views.len() > 0,
                self.fetched == old(self).fetched,
                spec_flush(self.groups_view(), domain@, agent_views.skip(i as int), rule_views)
                    == spec_flush(groups0, domain@, agent_views, rule_views),
            decreases n - i,
        {
            let g = RuleGroup {
                domain: domain.to_owned(),
                agent: agents[i].clone(),
                rules: clone_rules(rules),
            };
            proof {
                assert(g@.agent == agent_views.skip(i as int)[0]);
                assert(agent_views.skip(i as int).skip(1) =~= agent_views.skip(i + 1));
            }
            self.insert_group(g);
            i = i + 1;
        }
        proof {
            assert(agent_views.skip(n as int) =~= Seq::<Seq<char>>::empty());
        }
    }

    /// Parses robots.txt text and stores its rule-groups under
    /// `domain_key`, a group per agent name, later declarations for the
    /// same agent replacing earlier ones.
    pub fn parse(&mut self, domain_key: &str, content: &str)
        ensures
            final(self).groups_view() == spec_parse(
                old(self).groups_view(),
                domain_key@,
                content@,
            ),
            final(self).fetched == old(self).fetched,
    {
        let lines = split_lines(content);
        let ghost lviews = views_of(lines@);
        let ghost groups0 = self.groups_view();
        let mut agents: Vec<String> = Vec::new();
        let mut rules: Vec<Rule> = Vec::new();
        let n = lines.len();
        let mut k: usize = 0;
        proof {
            assert(lviews.skip(0) =~= lviews);
            assert(views_of(agents@) =~= Seq::<Seq<char>>::empty());
            assert(views_of(rules@) =~= Seq::<RuleModel>::empty());
        }
        while k < n
            invariant
                0 <= k <= n,
                n == lines@.len(),
                lviews == views_of(lines@),
                self.fetched == old(self).fetched,
                spec_parse_lines(
                    lviews.skip(k as int),
                    domain_key@,
                    views_of(agents@),
                    views_of(rules@),
                    self.groups_view(),
                ) == spec_parse_lines(
                    lviews,
                    domain_key@,
                    Seq::<Seq<char>>::empty(),
                    Seq::<RuleModel>::empty(),
                    groups0,
                ),
            decreases n - k,
        {
            proof {
                assert(lviews.skip(k as int)[0] == lines@[k as int]@);
                assert(lviews.skip(k as int).skip(1) =~= lviews.skip(k + 1));
            }
            match classify_line(lines[k].as_str()) {
                LineItem::SkipLine => {},
                LineItem::AgentLine(v) => {
                    let ghost vv = v@;
                    if rules.len() > 0 {
                        self.flush_groups(domain_key, &agents, &rules);
                        agents = Vec::new();
                        agents.push(v);
                        rules = Vec::new();
                        proof {
                            assert(views_of(agents@) =~= seq![vv]);
                            assert(views_of(rules@) =~= Seq::<RuleModel>::empty());
                        }
                    } else {
                        let ghost before = views_of(agents@);
                        agents.push(v);
                        proof {
                            assert(views_of(agents@) =~= before.push(vv));
                        }
                    }
                },
                LineItem::PatternLine(p, al) => {
                    let ghost pv = p@;
                    let ghost before = views_of(rules@);
                    rules.push(Rule { pattern: p, is_allow: al });
                    proof {
                        assert(views_of(rules@) =~= before.push(
                            RuleModel { pattern: pv, is_allow: al },
                        ));
                    }
                },
            }
            k = k + 1;
        }
        proof {
            assert(lviews.skip(n as int).len() == 0);
        }
        if rules.len() > 0 {
            self.flush_groups(domain_key, &agents, &rules);
        }
    }

    /// The position of the rules declared for `agent` (case-insensitive)
    /// under `domain`, if any.
    fn find_group(&self, domain: &str, agent: &str) -> (r: Option<usize>)
        ensures
            ({
                let idx = spec_group_idx(self.groups_view(), domain@, lower_seq(agent@));
                match r {
                    Some(i) => i == idx && idx < self.groups_view().len(),
                    None => idx == self.groups_view().len(),
                }
            }),
    {
        let ghost gs = self.groups_view();
        let ghost al = lower_seq(agent@);
        let n = self.groups.len();
        let mut i: usize = 0;
        while i < n
            invariant
                0 <= i <= n,
                n == self.groups@.len(),
                gs == self.groups_view(),
                al == lower_seq(agent@),
                forall|j: int| 0 <= j < i ==> !spec_group_matches(gs[j], domain@, al),
            decreases n - i,
        {
            let hit = str_eq(self.groups[i].domain.as_str(), domain) && eq_ignore_case(
                self.groups[i].agent.as_str(),
                agent,
            );
            if hit {
                proof {
                    lemma_group_idx_unique(gs, domain@, al, i as int);
                }
                return Some(i);
            }
            i = i + 1;
        }
        proof {
            lemma_group_idx_unique(gs, domain@, al, n as int);
        }
        None
    }
}

/// Whether a group answers for the composite key `domain:agent`, the
/// agent part compared case-insensitively.
pub open spec fn spec_key_matches(g: RuleGroupModel, key: Seq<char>) -> bool {
    let dl = g.domain.len() as int;
    &&& key.len() > dl
    &&& key.subrange(0, dl) == g.domain
    &&& key[dl] == ':'
    &&& lower_seq(key.skip(dl + 1)) == lower_seq(g.agent)
}

/// The position of the first group answering for `key`; the length of
/// `groups` when there is none.
pub open spec fn spec_key_idx(groups: Seq<RuleGroupModel>, key: Seq<char>) -> int
    decreases groups.len(),
{
    if groups.len() == 0 {
        0
    } else if spec_key_matches(groups[0], key) {
        0
    } else {
        1 + spec_key_idx(groups.skip(1), key)
    }
}

pub proof fn lemma_key_idx_unique(groups: Seq<RuleGroupModel>, key: Seq<char>, k: int)
    requires
        0 <= k <= groups.len(),
        forall|j: int| 0 <= j < k ==> !spec_key_matches(groups[j], key),
        k < groups.len() ==> spec_key_matches(groups[k], key),
    ensures
        spec_key_idx(groups, key) == k,
    decreases groups.len(),
{
    if groups.len() == 0 {
    } else if k == 0 {
    } else {
        assert(!spec_key_matches(groups[0], key));
        assert forall|j: int| 0 <= j < k - 1 implies !spec_key_matches(
            groups.skip(1)[j],
            key,
        ) by {
            assert(groups.skip(1)[j] == groups[j + 1]);
        }
        lemma_key_idx_unique(groups.skip(1), key, k - 1);
    }
}

/// Whether a URL is allowed: the verdict of the rules for `agent`
/// (case-insensitively) under the URL's domain-key, else of the wildcard
/// `*` agent's rules, else allowed.
pub open spec fn spec_is_allowed(
    groups: Seq<RuleGroupModel>,
    url: crate::urls::UrlPartsModel,
    agent: Seq<char>,
) -> bool {
    let d = spec_domain_key(url);
    let i = spec_group_idx(groups, d, lower_seq(agent));
    if i < groups.len() {
        spec_check_rules(groups[i].rules, url.path)
    } else {
        let w = spec_group_idx(groups, d, lower_seq("*"@));
        if w < groups.len() {
            spec_check_rules(groups[w].rules, url.path)
        } else {
            true
        }
    }
}

impl RobotsTxt {
    /// Answers whether `url` may be crawled by `user_agent`.
    pub fn is_allowed(&self, url: &UrlParts, user_agent: &str) -> (r: bool)
        ensures
            r == spec_is_allowed(self.groups_view(), url@, user_agent@),
    {
        let d = domain_key(url);
        match self.find_group(d.as_str(), user_agent) {
            Some(i) => {
                let verdict = self.check_rules(self.groups[i].rules.as_slice(), url.path.as_str());
                proof {
                    assert(views_of(self.groups@[i as int].rules@) == self.groups_view()[
                        i as int].rules);
                }
                verdict
            },
            None => {
                match self.find_group(d.as_str(), "*") {
                    Some(w) => {
                        let verdict = self.check_rules(
                            self.groups[w].rules.as_slice(),
                            url.path.as_str(),
                        );
                        proof {
                            assert(views_of(self.groups@[w as int].rules@) == self.groups_view()[
                                w as int].rules);
                        }
                        verdict
                    },
                    None => true,
                }
            },
        }
    }

    /// The rules stored under a composite key `domain:agent`, the agent
    /// part compared case-insensitively; the first matching group's rules,
    /// copied.
    pub fn rules_for(&self, key: &str) -> (r: Option<Vec<Rule>>)
        ensures
            ({
                let idx = spec_key_idx(self.groups_view(), key@);
                match r {
                    Some(rs) => idx < self.groups_view().len() && views_of(rs@)
                        == self.groups_view()[idx].rules,
                    None => idx == self.groups_view().len(),
                }
            }),
    {
        let ghost gs = self.groups_view();
        let kn = key.unicode_len();
        let n = self.groups.len();
        let mut i: usize = 0;
        while i < n
            invariant
                0 <= i <= n,
                n == self.groups@.len(),
                kn == key@.len(),
                gs == self.groups_view(),
                forall|j: int| 0 <= j < i ==> !spec_key_matches(gs[j], key@),
            decreases n - i,
        {
            let g = &self.groups[i];
            let dn = g.domain.as_str().unicode_len();
            let hit: bool = kn > dn && crate::text::starts_with(key, g.domain.as_str())
                && key.get_char(dn) == ':' && eq_ignore_case(
                key.substring_char(dn + 1, kn),
                g.agent.as_str(),
            );
            proof {
                if kn > dn {
                    assert(key@.subrange(dn + 1, kn as int) == key@.skip(dn + 1));
                }
                assert(g@ == gs[i as int]);
                assert(hit == spec_key_matches(gs[i as int], key@));
            }
            if hit {
                proof {
                    lemma_key_idx_unique(gs, key@, i as int);
                }
                let rs = clone_rules(&g.rules);
                return Some(rs);
            }
            i = i + 1;
        }
        proof {
            lemma_key_idx_unique(gs, key@, n as int);
        }
        None
    }

    /// Whether the policy for the domain of `url` has been requested
    /// already.
    pub fn is_fetched(&self, url: &UrlParts) -> (r: bool)
        ensures
            r == self.fetched_view().contains(spec_domain_key(url@)),
    {
        let d = domain_key(url);
        let n = self.fetched.len();
        let mut i: usize = 0;
        while i < n
            invariant
                0 <= i <= n,
                n == self.fetched@.len(),
                d@ == spec_domain_key(url@),
                forall|j: int| 0 <= j < i ==> self.fetched_view()[j] != d@,
            decreases n - i,
        {
            if string_eq(&self.fetched[i], &d) {
                proof {
                    assert(self.fetched_view()[i as int] == d@);
                }
                return true;
            }
            i = i + 1;
        }
        proof {
            if self.fetched_view().contains(d@) {
                let w = choose|j: int|
                    0 <= j < self.fetched_view().len() && self.fetched_view()[j] == d@;
                assert(self.fetched_view()[w] != d@);
            }
        }
        false
    }

    /// Records the outcome of requesting the policy of `url`'s domain:
    /// `Some` text is parsed, `None` (a failed or non-success request)
    /// leaves no rules, so everything stays allowed. Either way the domain
    /// is marked fetched; a domain already fetched is left untouched.
    pub fn record_response(&mut self, url: &UrlParts, body: Option<&str>)
        ensures
            ({
                let d = spec_domain_key(url@);
                let g0 = old(self).groups_view();
                let f0 = old(self).fetched_view();
                let g1 = final(self).groups_view();
                let f1 = final(self).fetched_view();
                if f0.contains(d) {
                    g1 == g0 && f1 == f0
                } else {
                    f1 == f0.push(d) && g1 == match body {
                        Some(c) => spec_parse(g0, d, c@),
                        None => g0,
                    }
                }
            }),
    {
        if self.is_fetched(url) {
            return;
        }
        let d = domain_key(url);
        match body {
            Some(c) => {
                self.parse(d.as_str(), c);
            },
            None => {},
        }
        let ghost f0 = self.fetched_view();
        self.fetched.push(d);
        proof {
            assert(self.fetched_view() =~= f0.push(spec_domain_key(url@)));
        }
    }
}

} // verus!
