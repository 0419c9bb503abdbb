//! Which paths the sync never sees.
//!
//! Rules are read in the order user rules, `.gitignore` files, `.vaporignore`
//! files, user rules again; the last rule that matches a path decides. The
//! daemon's own artifacts are invisible whatever the rules say.
use vstd::prelude::*;

use crate::config::VaporConfig;
use crate::continuations::without_leading_slashes;
use crate::globs::{add_pattern, brace_depth, build_set, builder_backslash, builder_patterns,
    copy_builder, empty_set, glob_error, glob_matches, matching_patterns, nesting, new_builder,
    reading_after, set_backslash, set_patterns, Nesting, Reading, MAX_BRACE_DEPTH};
use crate::paths::{file_name_of, path_text, within, Component, FsPath, Part};
use crate::planner::TEMP_FILE_PREFIX;
use crate::text::{ascii_folded, ascii_lowercase, begins_with, chars_of, compare_text, concat,
    finishes_with, lemma_text_less_irreflexive, lemma_text_less_total, lemma_text_less_transitive,
    pieces, same_text, split, string_of, text_ends_with, text_less, text_order, text_starts_with,
    text_views, trim, trimmed, Order};
use vstd::string::StringExecFns;

verus! {

pub const GIT_IGNORE_FILE_NAME: &'static str = ".gitignore";

pub const VAPOR_IGNORE_FILE_NAME: &'static str = ".vaporignore";

/// Ending of side files that carry op-ids.
pub const META_FILE_SUFFIX: &'static str = ".vapor-meta.json";

/// Directory of the daemon's runtime files and trash.
pub const INTERNAL_DIRECTORY_NAME: &'static str = ".vapor";

// ---------------------------------------------------------------------------
// Options
// ---------------------------------------------------------------------------

/// A flag as the environment spells it.
pub open spec fn bool_flag(value: Seq<char>) -> Option<bool> {
    let word = ascii_folded(trimmed(value));
    if word == "1"@ || word == "true"@ || word == "yes"@ || word == "on"@ {
        Some(true)
    } else if word == "0"@ || word == "false"@ || word == "no"@ || word == "off"@ {
        Some(false)
    } else {
        None
    }
}

/// Reads a flag; anything but the known spellings is no flag.
pub fn parse_bool_flag(value: &str) -> (r: Option<bool>)
    ensures
        r == bool_flag(value@),
{
    let word = ascii_lowercase(trim(value).as_str());
    let word = word.as_str();
    if same_text(word, "1") || same_text(word, "true") || same_text(word, "yes") || same_text(
        word,
        "on",
    ) {
        return Some(true);
    }
    if same_text(word, "0") || same_text(word, "false") || same_text(word, "no") || same_text(
        word,
        "off",
    ) {
        return Some(false);
    }
    None
}

/// The non-empty ones of `lines`, trimmed.
pub open spec fn trimmed_lines(lines: Seq<Seq<char>>) -> Seq<Seq<char>>
    decreases lines.len(),
{
    if lines.len() == 0 {
        Seq::empty()
    } else {
        let rest = trimmed_lines(lines.drop_last());
        let line = trimmed(lines.last());
        if line.len() == 0 {
            rest
        } else {
            rest.push(line)
        }
    }
}

/// Rules of a text, one per line.
pub fn parse_rule_lines(raw: &str) -> (r: Vec<String>)
    ensures
        text_views(r@) == trimmed_lines(pieces(raw@, '\n')),
{
    let lines = split(raw, '\n');
    let mut rules: Vec<String> = Vec::new();
    let mut i: usize = 0;
    let ghost all = text_views(lines@);
    assert(all.take(0) =~= Seq::empty());
    assert(text_views(rules@) =~= Seq::empty());
    while i < lines.len()
        invariant
            i <= lines@.len(),
            all == text_views(lines@),
            text_views(rules@) == trimmed_lines(all.take(i as int)),
        decreases lines@.len() - i,
    {
        let line = trim(lines[i].as_str());
        let ghost before = text_views(rules@);
        assert(all.take(i + 1).drop_last() =~= all.take(i as int));
        assert(all.take(i + 1).last() == lines@[i as int]@);
        if !is_blank(&line) {
            rules.push(line);
            assert(text_views(rules@) =~= before.push(line@));
        }
        i = i + 1;
    }
    assert(all.take(i as int) =~= all);
    rules
}

fn is_blank(text: &String) -> (r: bool)
    ensures
        r == (text@.len() == 0),
{
    proof {
        reveal_strlit("");
        assert(""@ =~= Seq::<char>::empty());
    }
    let r = same_text(text.as_str(), "");
    assert(r ==> text@.len() == 0);
    assert(text@.len() == 0 ==> text@ =~= Seq::<char>::empty());
    r
}

/// Where ignore rules come from.
#[derive(Debug, PartialEq, Eq)]
pub struct EventPathFilterOptions {
    pub use_gitignore: bool,
    pub use_vaporignore: bool,
    pub pre_user_rules: Vec<String>,
    pub post_user_rules: Vec<String>,
}

impl Default for EventPathFilterOptions {
    fn default() -> (r: EventPathFilterOptions)
        ensures
            r.use_gitignore,
            r.use_vaporignore,
            text_views(r.pre_user_rules@) == trimmed_lines(
                pieces(crate::config::DEFAULT_PRE_IGNORE_RULES@, '\n'),
            ),
            r.post_user_rules@.len() == 0,
    {
        EventPathFilterOptions {
            use_gitignore: true,
            use_vaporignore: true,
            pre_user_rules: parse_rule_lines(crate::config::DEFAULT_PRE_IGNORE_RULES),
            post_user_rules: Vec::new(),
        }
    }
}

/// A flag of the environment, else the configured value.
pub open spec fn flag_or(value: Option<&str>, configured: bool) -> bool {
    match value {
        Some(text) => match bool_flag(text@) {
            Some(flag) => flag,
            None => configured,
        },
        None => configured,
    }
}

fn resolve_flag(value: Option<&str>, configured: bool) -> (r: bool)
    ensures
        r == flag_or(value, configured),
{
    match value {
        Some(text) => match parse_bool_flag(text) {
            Some(flag) => flag,
            None => configured,
        },
        None => configured,
    }
}

pub open spec fn rules_or(value: Option<&str>, configured: Seq<char>) -> Seq<Seq<char>> {
    trimmed_lines(
        pieces(
            match value {
                Some(text) => text@,
                None => configured,
            },
            '\n',
        ),
    )
}

impl EventPathFilterOptions {
    /// Resolves the options: the environment goes before the configuration.
    pub fn resolve(
        env_use_gitignore: Option<&str>,
        env_use_vaporignore: Option<&str>,
        env_pre_rules: Option<&str>,
        env_post_rules: Option<&str>,
        config: &VaporConfig,
    ) -> (r: EventPathFilterOptions)
        ensures
            r.use_gitignore == flag_or(env_use_gitignore, config.use_git_ignore),
            r.use_vaporignore == flag_or(env_use_vaporignore, config.use_vapor_ignore),
            text_views(r.pre_user_rules@) == rules_or(env_pre_rules, config.pre_ignore_rules@),
            text_views(r.post_user_rules@) == rules_or(env_post_rules, config.post_ignore_rules@),
    {
        EventPathFilterOptions {
            use_gitignore: resolve_flag(env_use_gitignore, config.use_git_ignore),
            use_vaporignore: resolve_flag(env_use_vaporignore, config.use_vapor_ignore),
            pre_user_rules: match env_pre_rules {
                Some(raw) => parse_rule_lines(raw),
                None => parse_rule_lines(config.pre_ignore_rules.as_str()),
            },
            post_user_rules: match env_post_rules {
                Some(raw) => parse_rule_lines(raw),
                None => parse_rule_lines(config.post_ignore_rules.as_str()),
            },
        }
    }
}

// ---------------------------------------------------------------------------
// Rules
// ---------------------------------------------------------------------------

/// What a matching rule does.
#[derive(Clone, Copy, Debug, PartialEq, Eq, Structural)]
pub enum RuleAction {
    Ignore,
    Allow,
}

/// What a rule line says: nothing when it is blank or a comment; `!` allows
/// again; `\!` and `\#` stand for the bare characters.
pub open spec fn rule_of(raw: Seq<char>) -> Option<(RuleAction, Seq<char>)> {
    let line = trimmed(raw);
    if line.len() == 0 {
        None
    } else if begins_with(line, seq!['\\', '!']) {
        Some((RuleAction::Ignore, seq!['!'] + line.skip(2)))
    } else if begins_with(line, seq!['\\', '#']) {
        Some((RuleAction::Ignore, seq!['#'] + line.skip(2)))
    } else if line[0] == '#' {
        None
    } else if line[0] == '!' {
        let pattern = trimmed(line.skip(1));
        if pattern.len() == 0 {
            None
        } else {
            Some((RuleAction::Allow, pattern))
        }
    } else {
        Some((RuleAction::Ignore, line))
    }
}

pub open spec fn rule_view(rule: Option<(RuleAction, String)>) -> Option<(RuleAction, Seq<char>)> {
    match rule {
        Some((action, pattern)) => Some((action, pattern@)),
        None => None,
    }
}

/// Reads one rule line.
pub fn parse_rule_line(raw_line: &str) -> (r: Option<(RuleAction, String)>)
    ensures
        rule_view(r) == rule_of(raw_line@),
{
    let line = trim(raw_line);
    let chars = chars_of(line.as_str());
    let n: usize = chars.len();
    if n == 0 {
        return None;
    }
    let ghost text = line@;
    assert(n >= 2 ==> text.take(2) =~= seq![text[0], text[1]]);
    assert(begins_with(text, seq!['\\', '!']) == (n >= 2 && text[0] == '\\' && text[1] == '!')) by {
        if begins_with(text, seq!['\\', '!']) {
            assert(text.take(2)[0] == '\\' && text.take(2)[1] == '!');
        }
    }
    assert(begins_with(text, seq!['\\', '#']) == (n >= 2 && text[0] == '\\' && text[1] == '#')) by {
        if begins_with(text, seq!['\\', '#']) {
            assert(text.take(2)[0] == '\\' && text.take(2)[1] == '#');
        }
    }
    if n >= 2 && chars[0] == '\\' && (chars[1] == '!' || chars[1] == '#') {
        let pattern = string_of(&chars, 1, n);
        assert(pattern@ =~= seq![text[1]] + text.skip(2));
        return Some((RuleAction::Ignore, pattern));
    }
    if chars[0] == '#' {
        return None;
    }
    if chars[0] == '!' {
        let rest = string_of(&chars, 1, n);
        assert(rest@ =~= text.skip(1));
        let pattern = trim(rest.as_str());
        if is_blank(&pattern) {
            return None;
        }
        return Some((RuleAction::Allow, pattern));
    }
    Some((RuleAction::Ignore, line))
}

/// `s` without the slashes it ends with.
pub open spec fn without_trailing_slashes(s: Seq<char>) -> Seq<char>
    decreases s.len(),
{
    if s.len() > 0 && s.last() == '/' {
        without_trailing_slashes(s.drop_last())
    } else {
        s
    }
}

/// The part of a pattern between its outer slashes.
pub open spec fn pattern_body(raw: Seq<char>) -> Seq<char> {
    without_trailing_slashes(without_leading_slashes(raw))
}

/// The pattern below the directory `base`.
pub open spec fn based(base: Seq<char>, stem: Seq<char>) -> Seq<char> {
    if base.len() == 0 {
        stem
    } else {
        base + seq!['/'] + stem
    }
}

/// What a pattern stands for: a bare name matches at any depth, and what is
/// ignored is ignored with everything below it.
pub open spec fn expansions(raw: Seq<char>, base: Seq<char>, descend: bool) -> Seq<Seq<char>> {
    let body = pattern_body(raw);
    let below = descend || raw.last() == '/';
    let here = seq![based(base, body)] + (if below {
        seq![based(base, body) + seq!['/', '*', '*']]
    } else {
        Seq::empty()
    });
    if raw[0] == '/' || body.contains('/') {
        here
    } else {
        let deep = based(base, seq!['*', '*', '/'] + body);
        here + seq![deep] + (if below {
            seq![deep + seq!['/', '*', '*']]
        } else {
            Seq::empty()
        })
    }
}

/// Texts in strictly ascending order.
pub open spec fn strictly_ascending(texts: Seq<Seq<char>>) -> bool {
    forall|i: int, j: int|
        0 <= i < j < texts.len() ==> text_less(#[trigger] texts[i], #[trigger] texts[j])
}

/// Puts `text` in its place, unless it is there.
fn insert_sorted(texts: &mut Vec<String>, text: String)
    requires
        strictly_ascending(text_views(old(texts)@)),
    ensures
        strictly_ascending(text_views(final(texts)@)),
        forall|t: Seq<char>|
            #[trigger] text_views(final(texts)@).contains(t) <==> t == text@ || text_views(
                old(texts)@,
            ).contains(t),
{
    let ghost before = text_views(texts@);
    let mut at: usize = 0;
    while at < texts.len()
        invariant
            at <= texts@.len(),
            before == text_views(texts@),
            before == text_views(old(texts)@),
            strictly_ascending(before),
            forall|j: int| 0 <= j < at ==> text_less(#[trigger] before[j], text@),
        ensures
            at < texts@.len() ==> text_order(before[at as int], text@) is Greater,
        decreases texts@.len() - at,
    {
        match compare_text(texts[at].as_str(), text.as_str()) {
            Order::Less => {
                at = at + 1;
            },
            Order::Equal => {
                assert(before[at as int] == text@);
                assert(before.contains(text@));
                return;
            },
            Order::Greater => {
                break;
            },
        }
    }
    proof {
        if at < before.len() {
            lemma_text_less_total(before[at as int], text@);
            assert(text_less(text@, before[at as int]));
        }
    }
    texts.insert(at, text);
    proof {
        let after = text_views(texts@);
        assert(after =~= before.insert(at as int, text@));
        assert forall|i: int, j: int| 0 <= i < j < after.len() implies text_less(
            #[trigger] after[i],
            #[trigger] after[j],
        ) by {
            let a = if i < at {
                i
            } else {
                i - 1
            };
            let b = if j < at {
                j
            } else {
                j - 1
            };
            if i != at && j != at {
                assert(after[i] == before[a] && after[j] == before[b]);
            } else if i == at {
                assert(after[j] == before[b]);
                if b > at {
                    assert(text_less(before[at as int], before[b]));
                    lemma_text_less_transitive(text@, before[at as int], before[b]);
                }
            } else {
                assert(after[i] == before[a]);
            }
        }
        assert forall|t: Seq<char>| #[trigger] after.contains(t) <==> t == text@
            || before.contains(t) by {
            if before.contains(t) {
                let k = choose|k: int| 0 <= k < before.len() && before[k] == t;
                assert(after[if k < at {
                    k
                } else {
                    k + 1
                }] == t);
            }
            if after.contains(t) {
                let k = choose|k: int| 0 <= k < after.len() && after[k] == t;
                if k != at {
                    assert(before[if k < at {
                        k
                    } else {
                        k - 1
                    }] == t);
                }
            }
            assert(after[at as int] == text@);
        }
    }
}

/// A compiled rule: what it does to the paths its patterns match.
#[derive(Debug)]
pub struct CompiledRule {
    action: RuleAction,
    patterns: Vec<String>,
}

pub struct RuleView {
    pub action: RuleAction,
    pub patterns: Seq<Seq<char>>,
}

impl View for CompiledRule {
    type V = RuleView;

    closed spec fn view(&self) -> RuleView {
        RuleView { action: self.action, patterns: text_views(self.patterns@) }
    }
}

pub open spec fn rule_views(rules: Seq<CompiledRule>) -> Seq<RuleView> {
    rules.map_values(|r: CompiledRule| r@)
}

/// Why a pattern is refused; `None` when it is not.
pub open spec fn pattern_error(backslash: bool, pattern: Seq<char>) -> Option<Seq<char>> {
    if brace_depth(pattern) > MAX_BRACE_DEPTH {
        Some("ignore pattern nests braces too deeply"@)
    } else {
        glob_error(backslash, pattern)
    }
}

/// Why the first pattern that is refused is.
pub open spec fn first_error(backslash: bool, patterns: Seq<Seq<char>>) -> Option<Seq<char>>
    decreases patterns.len(),
{
    if patterns.len() == 0 {
        None
    } else {
        match first_error(backslash, patterns.drop_last()) {
            Some(error) => Some(error),
            None => pattern_error(backslash, patterns.last()),
        }
    }
}

/// No pattern of the rule is refused.
pub open spec fn accepted(backslash: bool, rule: RuleView) -> bool {
    forall|i: int|
        0 <= i < rule.patterns.len() ==> pattern_error(backslash, #[trigger] rule.patterns[i])
            is None
}

pub open spec fn all_accepted(backslash: bool, rules: Seq<RuleView>) -> bool {
    forall|i: int| 0 <= i < rules.len() ==> accepted(backslash, #[trigger] rules[i])
}

/// The pieces a pattern stands for, each once and in ascending order.
pub open spec fn is_expanded(
    texts: Seq<Seq<char>>,
    raw: Seq<char>,
    base: Seq<char>,
    descend: bool,
) -> bool {
    &&& strictly_ascending(texts)
    &&& forall|t: Seq<char>| #[trigger] texts.contains(t) <==> expansions(raw, base, descend).contains(t)
}

/// What a pattern stands for, in ascending order.
pub open spec fn expanded(raw: Seq<char>, base: Seq<char>, descend: bool) -> Seq<Seq<char>> {
    choose|texts: Seq<Seq<char>>| is_expanded(texts, raw, base, descend)
}

/// An ascending sequence is determined by what it holds.
proof fn lemma_ascending_unique(a: Seq<Seq<char>>, b: Seq<Seq<char>>)
    requires
        strictly_ascending(a),
        strictly_ascending(b),
        forall|t: Seq<char>| #[trigger] a.contains(t) <==> b.contains(t),
    ensures
        a == b,
    decreases a.len(),
{
    if a.len() == 0 {
        if b.len() > 0 {
            assert(b.contains(b[0]));
            assert(a.contains(b[0]));
        }
        assert(a =~= b);
    } else {
        assert(a.contains(a.last())) by {
            assert(a[a.len() - 1] == a.last());
        }
        let i = choose|i: int| 0 <= i < b.len() && b[i] == a.last();
        assert(b.contains(b.last())) by {
            assert(b[b.len() - 1] == b.last());
        }
        assert(a.contains(b.last()));
        let j = choose|j: int| 0 <= j < a.len() && a[j] == b.last();
        if i < b.len() - 1 {
            assert(text_less(b[i], b[b.len() - 1]));
            if j < a.len() - 1 {
                assert(text_less(a[j], a[a.len() - 1]));
                lemma_text_less_transitive(a.last(), b.last(), a.last());
            }
            lemma_text_less_irreflexive(a.last());
        }
        assert(a.last() == b.last());
        let (c, d) = (a.drop_last(), b.drop_last());
        assert forall|t: Seq<char>| #[trigger] c.contains(t) <==> d.contains(t) by {
            lemma_text_less_irreflexive(a.last());
            if c.contains(t) {
                let k = choose|k: int| 0 <= k < c.len() && c[k] == t;
                assert(a[k] == t);
                assert(text_less(a[k], a[a.len() - 1]));
                assert(a.contains(t));
                let m = choose|m: int| 0 <= m < b.len() && b[m] == t;
                assert(d[m] == t);
            }
            if d.contains(t) {
                let k = choose|k: int| 0 <= k < d.len() && d[k] == t;
                assert(b[k] == t);
                assert(text_less(b[k], b[b.len() - 1]));
                assert(b.contains(t));
                assert(a.contains(t));
                let m = choose|m: int| 0 <= m < a.len() && a[m] == t;
                assert(c[m] == t);
            }
        }
        lemma_ascending_unique(c, d);
        assert(a =~= c.push(a.last()));
        assert(b =~= d.push(b.last()));
    }
}

proof fn lemma_expanded(texts: Seq<Seq<char>>, raw: Seq<char>, base: Seq<char>, descend: bool)
    requires
        is_expanded(texts, raw, base, descend),
    ensures
        texts == expanded(raw, base, descend),
{
    let chosen = expanded(raw, base, descend);
    assert(is_expanded(chosen, raw, base, descend));
    assert forall|t: Seq<char>| #[trigger] texts.contains(t) <==> chosen.contains(t) by {}
    lemma_ascending_unique(texts, chosen);
}

/// Expands a pattern below the directory `base`.
pub fn expand_glob_patterns(raw_pattern: &str, base: &str, emit_descendants: bool) -> (r: Result<
    Vec<String>,
    String,
>)
    ensures
        match r {
            Ok(patterns) => {
                &&& pattern_body(raw_pattern@).len() > 0
                &&& is_expanded(text_views(patterns@), raw_pattern@, base@, emit_descendants)
                &&& text_views(patterns@) == expanded(raw_pattern@, base@, emit_descendants)
            },
            Err(error) => pattern_body(raw_pattern@).len() == 0 && error@
                == "ignore pattern is empty"@,
        },
{
    let chars = chars_of(raw_pattern);
    let n: usize = chars.len();
    let mut from: usize = 0;
    assert(chars@.skip(0) =~= chars@);
    while from < n && chars[from] == '/'
        invariant
            from <= n == chars@.len(),
            without_leading_slashes(chars@) == without_leading_slashes(chars@.skip(from as int)),
        decreases n - from,
    {
        assert(chars@.skip(from as int).skip(1) =~= chars@.skip(from + 1));
        from = from + 1;
    }
    let ghost tail = chars@.skip(from as int);
    assert(without_leading_slashes(chars@) == tail);
    let mut to: usize = n;
    assert(tail =~= chars@.subrange(from as int, to as int));
    while from < to && chars[to - 1] == '/'
        invariant
            from <= to <= n == chars@.len(),
            without_trailing_slashes(tail) == without_trailing_slashes(
                chars@.subrange(from as int, to as int),
            ),
        decreases to,
    {
        assert(chars@.subrange(from as int, to as int).drop_last() =~= chars@.subrange(
            from as int,
            to - 1,
        ));
        to = to - 1;
    }
    let body = string_of(&chars, from, to);
    assert(body@ == pattern_body(raw_pattern@));
    if from == to {
        return Err("ignore pattern is empty".to_owned());
    }
    let mut has_separator = false;
    let mut i: usize = from;
    while i < to
        invariant
            from <= i <= to <= chars@.len(),
            body@ == chars@.subrange(from as int, to as int),
            has_separator ==> body@.contains('/'),
            !has_separator ==> forall|j: int| from <= j < i ==> chars@[j] != '/',
        decreases to - i,
    {
        if chars[i] == '/' {
            assert(body@[i - from] == '/');
            has_separator = true;
        }
        i = i + 1;
    }
    assert(has_separator == body@.contains('/')) by {
        if body@.contains('/') {
            let k = choose|k: int| 0 <= k < body@.len() && body@[k] == '/';
            assert(chars@[from + k] == '/');
        }
    }
    let below = emit_descendants || chars[n - 1] == '/';
    let anchored = chars[0] == '/';
    proof {
        reveal_strlit("/**");
        reveal_strlit("**/");
        assert("/**"@ =~= seq!['/', '*', '*']);
        assert("**/"@ =~= seq!['*', '*', '/']);
    }
    let mut patterns: Vec<String> = Vec::new();
    assert(text_views(patterns@) =~= Seq::empty());
    let ghost all = expansions(raw_pattern@, base@, emit_descendants);
    let here = resolve_stem(base, body.as_str());
    if below {
        insert_sorted(&mut patterns, concat(here.as_str(), "/**"));
    }
    insert_sorted(&mut patterns, here);
    if !anchored && !has_separator {
        let deep = resolve_stem(base, concat("**/", body.as_str()).as_str());
        if below {
            insert_sorted(&mut patterns, concat(deep.as_str(), "/**"));
        }
        insert_sorted(&mut patterns, deep);
    }
    proof {
        let h = based(base@, body@);
        let d = based(base@, seq!['*', '*', '/'] + body@);
        let star = seq!['/', '*', '*'];
        assert forall|t: Seq<char>| #[trigger] text_views(patterns@).contains(t) <==> all.contains(
            t,
        ) by {
            let deeper = !anchored && !has_separator;
            let member = t == h || (below && t == h + star) || (deeper && (t == d || (below && t == d
                + star)));
            assert(text_views(patterns@).contains(t) <==> member);
            if all.contains(t) {
                let k = choose|k: int| 0 <= k < all.len() && all[k] == t;
                assert(member);
            }
            if t == h {
                assert(all[0] == t);
            }
            if below && t == h + star {
                assert(all[1] == t);
            }
            if deeper && t == d {
                assert(all[if below {
                    2int
                } else {
                    1int
                }] == t);
            }
            if deeper && below && t == d + star {
                assert(all[3] == t);
            }
        }
    }
    proof {
        lemma_expanded(text_views(patterns@), raw_pattern@, base@, emit_descendants);
    }
    Ok(patterns)
}

fn resolve_stem(base: &str, stem: &str) -> (r: String)
    ensures
        r@ == based(base@, stem@),
{
    let prefix = base.to_owned();
    if is_blank(&prefix) {
        return stem.to_owned();
    }
    let mut r = prefix;
    r.push('/');
    r.append(stem);
    assert(r@ =~= based(base@, stem@));
    r
}

/// The rule of a pattern, or why there is none.
pub open spec fn compiled(
    backslash: bool,
    action: RuleAction,
    pattern: Seq<char>,
    base: Seq<char>,
) -> Result<RuleView, Seq<char>> {
    let patterns = expanded(pattern, base, action == RuleAction::Ignore);
    if pattern_body(pattern).len() == 0 {
        Err("ignore pattern is empty"@)
    } else {
        match first_error(backslash, patterns) {
            Some(error) => Err(error),
            None => Ok(RuleView { action, patterns }),
        }
    }
}

fn next_reading(reading: Reading, c: char) -> (r: Reading)
    ensures
        r == reading_after(reading, c),
{
    match reading {
        Reading::Plain => if c == '\\' {
            Reading::Escaped
        } else if c == '[' {
            Reading::ClassOpened
        } else {
            Reading::Plain
        },
        Reading::Escaped => Reading::Plain,
        Reading::ClassOpened => if c == '!' || c == '^' {
            Reading::ClassNegated
        } else {
            Reading::Class
        },
        Reading::ClassNegated => Reading::Class,
        Reading::Class => if c == ']' {
            Reading::Plain
        } else {
            Reading::Class
        },
    }
}

fn deepest_braces(pattern: &str) -> (r: usize)
    ensures
        r as nat == brace_depth(pattern@),
{
    let chars = chars_of(pattern);
    let mut reading = Reading::Plain;
    let mut star = false;
    let mut closes = true;
    let mut open: usize = 0;
    let mut deepest: usize = 0;
    let mut i: usize = 0;
    assert(chars@.take(0) =~= Seq::<char>::empty());
    while i < chars.len()
        invariant
            i <= chars@.len(),
            open <= i,
            nesting(chars@.take(i as int)) == (Nesting {
                reading,
                star,
                closes,
                open: open as nat,
                deepest: deepest as nat,
            }),
        decreases chars@.len() - i,
    {
        assert(chars@.take(i + 1).drop_last() =~= chars@.take(i as int));
        let c = chars[i];
        let plain = reading == Reading::Plain;
        if c == '{' && (plain || !closes) {
            open = open + 1;
            if open > deepest {
                deepest = open;
            }
        } else if c == '}' && plain && closes && open > 0 {
            open = open - 1;
        }
        closes = closes && !(plain && star && c == '\\');
        star = plain && c == '*';
        reading = next_reading(reading, c);
        i = i + 1;
    }
    assert(chars@.take(i as int) =~= pattern@);
    deepest
}

proof fn lemma_first_error_stays(backslash: bool, patterns: Seq<Seq<char>>, n: int)
    requires
        0 <= n <= patterns.len(),
        first_error(backslash, patterns.take(n)) is Some,
    ensures
        first_error(backslash, patterns) == first_error(backslash, patterns.take(n)),
    decreases patterns.len() - n,
{
    if n < patterns.len() {
        assert(patterns.take(n + 1).drop_last() =~= patterns.take(n));
        lemma_first_error_stays(backslash, patterns, n + 1);
    } else {
        assert(patterns.take(n) =~= patterns);
    }
}

/// Adds a pattern to a builder, unless it is refused.
fn try_pattern(builder: &mut globset::GlobSetBuilder, pattern: &str) -> (r: Result<(), String>)
    ensures
        builder_backslash(*final(builder)) == builder_backslash(*old(builder)),
        match r {
            Ok(_) => pattern_error(builder_backslash(*old(builder)), pattern@) is None
                && builder_patterns(*final(builder)) == builder_patterns(*old(builder)).push(
                pattern@,
            ),
            Err(error) => pattern_error(builder_backslash(*old(builder)), pattern@) == Some(error@)
                && builder_patterns(*final(builder)) == builder_patterns(*old(builder)),
        },
{
    if deepest_braces(pattern) > MAX_BRACE_DEPTH {
        return Err("ignore pattern nests braces too deeply".to_owned());
    }
    add_pattern(builder, pattern)
}

/// Compiles a rule. What an ignore rule names is ignored with everything
/// below it; an allow rule allows only what it names. `blank` is a builder to
/// try the patterns on, and stays as it is.
pub fn compile_rule(
    action: RuleAction,
    raw_pattern: &str,
    base: &str,
    blank: &globset::GlobSetBuilder,
) -> (r: Result<CompiledRule, String>)
    ensures
        match compiled(builder_backslash(*blank), action, raw_pattern@, base@) {
            Ok(rule) => r matches Ok(made) && made@ == rule && accepted(
                builder_backslash(*blank),
                rule,
            ),
            Err(error) => r matches Err(told) && told@ == error,
        },
{
    let emit_descendants = matches!(action, RuleAction::Ignore);
    let patterns = match expand_glob_patterns(raw_pattern, base, emit_descendants) {
        Ok(patterns) => patterns,
        Err(error) => {
            return Err(error);
        },
    };
    let ghost all = text_views(patterns@);
    let ghost backslash = builder_backslash(*blank);
    let mut scratch = copy_builder(blank);
    let mut i: usize = 0;
    assert(all.take(0) =~= Seq::empty());
    while i < patterns.len()
        invariant
            i <= patterns@.len(),
            all == text_views(patterns@),
            all == expanded(raw_pattern@, base@, action == RuleAction::Ignore),
            pattern_body(raw_pattern@).len() > 0,
            backslash == builder_backslash(*blank),
            builder_backslash(scratch) == backslash,
            first_error(backslash, all.take(i as int)) is None,
            forall|j: int| 0 <= j < i ==> pattern_error(backslash, #[trigger] all[j]) is None,
        decreases patterns@.len() - i,
    {
        assert(all.take(i + 1).drop_last() =~= all.take(i as int));
        assert(all[i as int] == patterns@[i as int]@);
        if let Err(error) = try_pattern(&mut scratch, patterns[i].as_str()) {
            proof {
                lemma_first_error_stays(backslash, all, i + 1);
            }
            return Err(error);
        }
        i = i + 1;
    }
    assert(all.take(i as int) =~= all);
    Ok(CompiledRule { action, patterns })
}

// ---------------------------------------------------------------------------
// Verdicts
// ---------------------------------------------------------------------------

/// A pattern of the rule matches the text.
pub open spec fn rule_matches(backslash: bool, rule: RuleView, text: Seq<char>) -> bool {
    exists|i: int|
        0 <= i < rule.patterns.len() && #[trigger] glob_matches(backslash, rule.patterns[i], text)
}

/// Whether the rules ignore a text: the last rule that matches decides, and
/// without one nothing is ignored.
pub open spec fn verdict(backslash: bool, rules: Seq<RuleView>, text: Seq<char>) -> bool
    decreases rules.len(),
{
    if rules.len() == 0 {
        false
    } else if rule_matches(backslash, rules.last(), text) {
        rules.last().action == RuleAction::Ignore
    } else {
        verdict(backslash, rules.drop_last(), text)
    }
}

/// A rule can only be overruled by a later one: rules appended behind a rule
/// list decide every text they match, and leave every other to the list.
pub proof fn law_later_rules_decide(
    backslash: bool,
    rules: Seq<RuleView>,
    later: RuleView,
    text: Seq<char>,
)
    ensures
        verdict(backslash, rules.push(later), text) == if rule_matches(backslash, later, text) {
            later.action == RuleAction::Ignore
        } else {
            verdict(backslash, rules, text)
        },
{
    assert(rules.push(later).drop_last() =~= rules);
}

/// All patterns, rule by rule.
pub open spec fn flat(rules: Seq<RuleView>) -> Seq<Seq<char>>
    decreases rules.len(),
{
    if rules.len() == 0 {
        Seq::empty()
    } else {
        flat(rules.drop_last()) + rules.last().patterns
    }
}

/// For every pattern of the flat list, the rule it belongs to.
pub open spec fn owners(rules: Seq<RuleView>) -> Seq<int>
    decreases rules.len(),
{
    if rules.len() == 0 {
        Seq::empty()
    } else {
        owners(rules.drop_last()) + Seq::new(
            rules.last().patterns.len(),
            |i: int| rules.len() - 1,
        )
    }
}

proof fn lemma_owners(rules: Seq<RuleView>)
    ensures
        owners(rules).len() == flat(rules).len(),
        forall|k: int| 0 <= k < owners(rules).len() ==> 0 <= #[trigger] owners(rules)[k] < rules.len(),
    decreases rules.len(),
{
    if rules.len() > 0 {
        lemma_owners(rules.drop_last());
        let front = owners(rules.drop_last());
        assert forall|k: int| 0 <= k < owners(rules).len() implies 0 <= #[trigger] owners(rules)[k]
            < rules.len() by {
            if k < front.len() {
                assert(owners(rules)[k] == front[k]);
            }
        }
    }
}

/// Matching the flat list decides: with `last` the last matching pattern, its
/// rule is the last that matches.
proof fn lemma_last_match(backslash: bool, rules: Seq<RuleView>, text: Seq<char>, last: int)
    requires
        -1 <= last < flat(rules).len(),
        last >= 0 ==> glob_matches(backslash, flat(rules)[last], text),
        forall|k: int|
            last < k < flat(rules).len() ==> !glob_matches(
                backslash,
                #[trigger] flat(rules)[k],
                text,
            ),
    ensures
        verdict(backslash, rules, text) == (last >= 0 && rules[owners(rules)[last]].action
            == RuleAction::Ignore),
    decreases rules.len(),
{
    lemma_owners(rules);
    if rules.len() > 0 {
        let front = rules.drop_last();
        lemma_owners(front);
        let n = flat(front).len() as int;
        let tail = rules.last().patterns;
        if last >= n {
            assert(flat(rules)[last] == tail[last - n]);
            assert(glob_matches(backslash, tail[last - n], text));
            assert(rule_matches(backslash, rules.last(), text));
            assert(owners(rules)[last] == rules.len() - 1);
        } else {
            assert(!rule_matches(backslash, rules.last(), text)) by {
                if rule_matches(backslash, rules.last(), text) {
                    let p = choose|p: int|
                        0 <= p < tail.len() && #[trigger] glob_matches(backslash, tail[p], text);
                    assert(flat(rules)[n + p] == tail[p]);
                }
            }
            assert forall|k: int| last < k < flat(front).len() implies !glob_matches(
                backslash,
                #[trigger] flat(front)[k],
                text,
            ) by {
                assert(flat(rules)[k] == flat(front)[k]);
            }
            if last >= 0 {
                assert(flat(rules)[last] == flat(front)[last]);
                assert(owners(rules)[last] == owners(front)[last]);
            }
            lemma_last_match(backslash, front, text, last);
            if last >= 0 {
                assert(front[owners(front)[last]] == rules[owners(front)[last]]);
            }
        }
    }
}

/// A path text with `/` for every backslash.
pub open spec fn slashed(text: Seq<char>) -> Seq<char> {
    text.map_values(
        |c: char|
            if c == '\\' {
                '/'
            } else {
                c
            },
    )
}

/// The text rules are matched against.
pub fn normalize_relative_path(path: &FsPath) -> (r: String)
    ensures
        r@ == slashed(path_text(path@)),
{
    let text = path.to_text();
    let chars = chars_of(text.as_str());
    let mut out = String::new();
    let mut i: usize = 0;
    while i < chars.len()
        invariant
            i <= chars@.len(),
            out@ == slashed(chars@.take(i as int)),
        decreases chars@.len() - i,
    {
        if chars[i] == '\\' {
            out.push('/');
        } else {
            out.push(chars[i]);
        }
        assert(out@ =~= slashed(chars@.take(i + 1)));
        i = i + 1;
    }
    assert(chars@.take(i as int) =~= chars@);
    out
}

/// The file is one the daemon made for itself.
pub open spec fn internal_name(name: Seq<char>) -> bool {
    begins_with(name, TEMP_FILE_PREFIX@) || finishes_with(name, META_FILE_SUFFIX@) || name
        == INTERNAL_DIRECTORY_NAME@
}

/// The path names one of the daemon's own artifacts.
pub open spec fn internal_artifact(path: Seq<Part>) -> bool {
    file_name_of(path) matches Some(name) && internal_name(name)
}

/// Whether the path names one of the daemon's own artifacts.
pub fn is_internal_artifact(path: &FsPath) -> (r: bool)
    ensures
        r == internal_artifact(path@),
{
    match path.file_name() {
        Some(name) => text_starts_with(name.as_str(), TEMP_FILE_PREFIX) || text_ends_with(
            name.as_str(),
            META_FILE_SUFFIX,
        ) || same_text(name.as_str(), INTERNAL_DIRECTORY_NAME),
        None => false,
    }
}

pub open spec fn is_internal_directory(part: Part) -> bool {
    part matches Part::Normal(name) && name == INTERNAL_DIRECTORY_NAME@
}

/// The path goes through a directory of the daemon's own.
pub open spec fn through_internal_directory(path: Seq<Part>) -> bool {
    exists|i: int| 0 <= i < path.len() && is_internal_directory(#[trigger] path[i])
}

fn passes_internal_directory(path: &FsPath) -> (r: bool)
    ensures
        r == through_internal_directory(path@),
{
    let mut i: usize = 0;
    while i < path.len()
        invariant
            i <= path@.len(),
            forall|j: int| 0 <= j < i ==> !is_internal_directory(#[trigger] path@[j]),
        decreases path@.len() - i,
    {
        if let Component::Normal(name) = path.component(i) {
            if same_text(name.as_str(), INTERNAL_DIRECTORY_NAME) {
                assert(is_internal_directory(path@[i as int]));
                return true;
            }
        }
        i = i + 1;
    }
    false
}

/// The rules ignore what lies at `path` below `root`.
pub open spec fn ruled_out(
    backslash: bool,
    rules: Seq<RuleView>,
    root: Seq<Part>,
    path: Seq<Part>,
) -> bool {
    let text = slashed(path_text(path.skip(root.len() as int)));
    within(path, root) && text.len() > 0 && verdict(backslash, rules, text)
}

/// The sync never sees `path`.
pub open spec fn ignored(
    backslash: bool,
    rules: Seq<RuleView>,
    root: Seq<Part>,
    path: Seq<Part>,
) -> bool {
    ||| internal_artifact(path)
    ||| within(path, root) && through_internal_directory(path.skip(root.len() as int))
    ||| ruled_out(backslash, rules, root, path)
}

/// The daemon's own artifacts are invisible whatever the rules say.
pub proof fn law_internal_artifacts_are_always_ignored(
    backslash: bool,
    rules: Seq<RuleView>,
    root: Seq<Part>,
    path: Seq<Part>,
)
    requires
        internal_artifact(path) || (within(path, root) && through_internal_directory(
            path.skip(root.len() as int),
        )),
    ensures
        ignored(backslash, rules, root, path),
{
}

/// A rule line that was skipped, and why.
#[derive(Debug, PartialEq, Eq)]
pub struct SkippedRule {
    pub pattern: String,
    pub error: String,
}

pub struct SkippedView {
    pub pattern: Seq<char>,
    pub error: Seq<char>,
}

impl View for SkippedRule {
    type V = SkippedView;

    open spec fn view(&self) -> SkippedView {
        SkippedView { pattern: self.pattern@, error: self.error@ }
    }
}

pub open spec fn skipped_views(skipped: Seq<SkippedRule>) -> Seq<SkippedView> {
    skipped.map_values(|s: SkippedRule| s@)
}

/// The rule of a line, or why it is skipped; `None` where it says nothing.
pub open spec fn line_rule(backslash: bool, line: Seq<char>, base: Seq<char>) -> Option<
    Result<RuleView, SkippedView>,
> {
    match rule_of(line) {
        None => None,
        Some((action, pattern)) => Some(
            match compiled(backslash, action, pattern, base) {
                Ok(rule) => Ok(rule),
                Err(error) => Err(SkippedView { pattern, error }),
            },
        ),
    }
}

/// The rules once a line is appended.
pub open spec fn with_line(
    backslash: bool,
    before: Seq<RuleView>,
    line: Seq<char>,
    base: Seq<char>,
) -> Seq<RuleView> {
    match line_rule(backslash, line, base) {
        Some(Ok(rule)) => before.push(rule),
        _ => before,
    }
}

/// The rules once lines are appended, one after the other.
pub open spec fn with_lines(
    backslash: bool,
    before: Seq<RuleView>,
    lines: Seq<Seq<char>>,
    base: Seq<char>,
) -> Seq<RuleView>
    decreases lines.len(),
{
    if lines.len() == 0 {
        before
    } else {
        with_line(
            backslash,
            with_lines(backslash, before, lines.drop_last(), base),
            lines.last(),
            base,
        )
    }
}

/// The lines that are skipped, in their order.
pub open spec fn skipped_lines(
    backslash: bool,
    lines: Seq<Seq<char>>,
    base: Seq<char>,
) -> Seq<SkippedView>
    decreases lines.len(),
{
    if lines.len() == 0 {
        Seq::empty()
    } else {
        let earlier = skipped_lines(backslash, lines.drop_last(), base);
        match line_rule(backslash, lines.last(), base) {
            Some(Err(skipped)) => earlier.push(skipped),
            _ => earlier,
        }
    }
}

/// Rules below a watch root, in the order they are applied.
#[derive(Debug)]
pub struct RuleList {
    watch_root: FsPath,
    rules: Vec<CompiledRule>,
    /// A builder without patterns.
    blank: globset::GlobSetBuilder,
}

/// An ignore file and its text.
#[derive(Debug, PartialEq, Eq)]
pub struct IgnoreFile {
    pub path: FsPath,
    pub contents: String,
}

/// Text of the directory an ignore file stands in, below the root.
pub open spec fn base_of(root: Seq<Part>, file: Seq<Part>) -> Seq<char> {
    if crate::paths::has_parent(file) && within(file.drop_last(), root) {
        slashed(path_text(file.drop_last().skip(root.len() as int)))
    } else {
        Seq::empty()
    }
}

impl RuleList {
    pub closed spec fn root(&self) -> Seq<Part> {
        self.watch_root@
    }

    pub closed spec fn rules(&self) -> Seq<RuleView> {
        rule_views(self.rules@)
    }

    /// Whether `\` separates paths where the rules are matched.
    pub closed spec fn backslash(&self) -> bool {
        builder_backslash(self.blank)
    }

    pub closed spec fn wf(&self) -> bool {
        &&& all_accepted(self.backslash(), self.rules())
        &&& builder_patterns(self.blank).len() == 0
    }

    /// No rules yet.
    pub fn new(watch_root: FsPath) -> (r: RuleList)
        ensures
            r.root() == watch_root@,
            r.rules() == Seq::<RuleView>::empty(),
            r.wf(),
    {
        let r = RuleList { watch_root, rules: Vec::new(), blank: new_builder() };
        assert(r.rules() =~= Seq::<RuleView>::empty());
        r
    }

    /// Appends the rule of one line, unless it says nothing or is malformed.
    pub fn append_rule_line(&mut self, raw_line: &str, base: &str) -> (r: Option<SkippedRule>)
        requires
            old(self).wf(),
        ensures
            final(self).wf(),
            final(self).root() == old(self).root(),
            final(self).backslash() == old(self).backslash(),
            final(self).rules() == with_line(
                old(self).backslash(),
                old(self).rules(),
                raw_line@,
                base@,
            ),
            match line_rule(old(self).backslash(), raw_line@, base@) {
                Some(Err(skipped)) => r matches Some(told) && told@ == skipped,
                _ => r is None,
            },
    {
        let (action, pattern) = match parse_rule_line(raw_line) {
            Some(rule) => rule,
            None => {
                return None;
            },
        };
        match compile_rule(action, pattern.as_str(), base, &self.blank) {
            Ok(rule) => {
                let ghost before = self.rules();
                self.rules.push(rule);
                proof {
                    assert(self.rules() =~= before.push(rule@));
                    assert forall|i: int| 0 <= i < self.rules().len() implies accepted(
                        self.backslash(),
                        #[trigger] self.rules()[i],
                    ) by {
                        if i < before.len() {
                            assert(self.rules()[i] == before[i]);
                        }
                    }
                }
                None
            },
            Err(error) => Some(SkippedRule { pattern, error }),
        }
    }

    fn append_lines(&mut self, lines: &Vec<String>, base: &str) -> (r: Vec<SkippedRule>)
        requires
            old(self).wf(),
        ensures
            final(self).wf(),
            final(self).root() == old(self).root(),
            final(self).backslash() == old(self).backslash(),
            final(self).rules() == with_lines(
                old(self).backslash(),
                old(self).rules(),
                text_views(lines@),
                base@,
            ),
            skipped_views(r@) == skipped_lines(old(self).backslash(), text_views(lines@), base@),
    {
        let mut skipped: Vec<SkippedRule> = Vec::new();
        let ghost all = text_views(lines@);
        let ghost backslash = self.backslash();
        let mut i: usize = 0;
        assert(all.take(0) =~= Seq::empty());
        assert(skipped_views(skipped@) =~= Seq::empty());
        while i < lines.len()
            invariant
                i <= lines@.len(),
                all == text_views(lines@),
                self.wf(),
                self.root() == old(self).root(),
                backslash == old(self).backslash(),
                self.backslash() == backslash,
                self.rules() == with_lines(
                    backslash,
                    old(self).rules(),
                    all.take(i as int),
                    base@,
                ),
                skipped_views(skipped@) == skipped_lines(backslash, all.take(i as int), base@),
            decreases lines@.len() - i,
        {
            assert(all.take(i + 1).drop_last() =~= all.take(i as int));
            assert(all.take(i + 1).last() == lines@[i as int]@);
            let ghost before = skipped_views(skipped@);
            if let Some(problem) = self.append_rule_line(lines[i].as_str(), base) {
                skipped.push(problem);
                assert(skipped_views(skipped@) =~= before.push(problem@));
            }
            i = i + 1;
        }
        assert(all.take(i as int) =~= all);
        skipped
    }

    /// Appends rules of the user, anchored at the root.
    pub fn append_user_rules(&mut self, user_rules: &Vec<String>) -> (r: Vec<SkippedRule>)
        requires
            old(self).wf(),
        ensures
            final(self).wf(),
            final(self).root() == old(self).root(),
            final(self).backslash() == old(self).backslash(),
            final(self).rules() == with_lines(
                old(self).backslash(),
                old(self).rules(),
                text_views(user_rules@),
                Seq::empty(),
            ),
            skipped_views(r@) == skipped_lines(
                old(self).backslash(),
                text_views(user_rules@),
                Seq::empty(),
            ),
    {
        proof {
            reveal_strlit("");
            assert(""@ =~= Seq::<char>::empty());
        }
        self.append_lines(user_rules, "")
    }

    /// Appends the rules of an ignore file, anchored at its directory.
    pub fn append_rules_from_file(&mut self, file: &IgnoreFile) -> (r: Vec<SkippedRule>)
        requires
            old(self).wf(),
        ensures
            final(self).wf(),
            final(self).root() == old(self).root(),
            final(self).backslash() == old(self).backslash(),
            final(self).rules() == with_lines(
                old(self).backslash(),
                old(self).rules(),
                pieces(file.contents@, '\n'),
                base_of(old(self).root(), file.path@),
            ),
            skipped_views(r@) == skipped_lines(
                old(self).backslash(),
                pieces(file.contents@, '\n'),
                base_of(old(self).root(), file.path@),
            ),
    {
        let base = match file.path.parent() {
            Some(parent) => match parent.strip_prefix(&self.watch_root) {
                Some(relative) => normalize_relative_path(&relative),
                None => String::new(),
            },
            None => String::new(),
        };
        let lines = split(file.contents.as_str(), '\n');
        self.append_lines(&lines, base.as_str())
    }

    /// A builder that holds the patterns of all rules, rule by rule.
    pub fn gather(&self) -> (r: globset::GlobSetBuilder)
        requires
            self.wf(),
        ensures
            builder_patterns(r) == flat(self.rules()),
            builder_backslash(r) == self.backslash(),
    {
        let mut builder = copy_builder(&self.blank);
        let ghost all = self.rules();
        let mut i: usize = 0;
        assert(all.take(0) =~= Seq::empty());
        assert(builder_patterns(builder) =~= flat(all.take(0)));
        while i < self.rules.len()
            invariant
                i <= self.rules@.len(),
                all == self.rules(),
                all == rule_views(self.rules@),
                all_accepted(self.backslash(), all),
                builder_patterns(builder) == flat(all.take(i as int)),
                builder_backslash(builder) == self.backslash(),
            decreases self.rules@.len() - i,
        {
            let ghost front = all.take(i as int);
            let ghost next = all.take(i + 1);
            assert(next.drop_last() =~= front);
            assert(next.last() == self.rules@[i as int]@);
            assert(accepted(self.backslash(), all[i as int]));
            let rule = &self.rules[i];
            let ghost patterns = rule@.patterns;
            let mut p: usize = 0;
            assert(patterns.take(0) =~= Seq::empty());
            assert(flat(front) + patterns.take(0) =~= flat(front));
            while p < rule.patterns.len()
                invariant
                    p <= rule.patterns@.len(),
                    patterns == text_views(rule.patterns@),
                    patterns == rule@.patterns,
                    accepted(self.backslash(), rule@),
                    builder_patterns(builder) == flat(front) + patterns.take(p as int),
                    builder_backslash(builder) == self.backslash(),
                decreases rule.patterns@.len() - p,
            {
                assert(pattern_error(self.backslash(), rule@.patterns[p as int]) is None);
                let _ = try_pattern(&mut builder, rule.patterns[p].as_str());
                assert(flat(front) + patterns.take(p + 1) =~= (flat(front) + patterns.take(
                    p as int,
                )).push(patterns[p as int]));
                p = p + 1;
            }
            assert(patterns.take(p as int) =~= patterns);
            i = i + 1;
        }
        assert(all.take(i as int) =~= all);
        builder
    }
}

// ---------------------------------------------------------------------------
// The compiled filter
// ---------------------------------------------------------------------------

/// The rules with all their patterns compiled into one set, so a path is
/// matched in one pass.
#[derive(Debug)]
pub struct EventPathFilter {
    list: RuleList,
    glob_set: globset::GlobSet,
    /// The rule each pattern of the set belongs to.
    glob_owner: Vec<usize>,
}

pub open spec fn owned(glob_owner: Seq<usize>, rules: Seq<RuleView>) -> bool {
    glob_owner.map_values(|k: usize| k as int) == owners(rules)
}

/// The rule each pattern of the flat list belongs to.
fn pattern_owners(rules: &Vec<CompiledRule>) -> (r: Vec<usize>)
    ensures
        owned(r@, rule_views(rules@)),
{
    let mut glob_owner: Vec<usize> = Vec::new();
    let ghost all = rule_views(rules@);
    let mut i: usize = 0;
    assert(all.take(0) =~= Seq::empty());
    assert(glob_owner@.map_values(|k: usize| k as int) =~= Seq::<int>::empty());
    while i < rules.len()
        invariant
            i <= rules@.len(),
            all == rule_views(rules@),
            owned(glob_owner@, all.take(i as int)),
        decreases rules@.len() - i,
    {
        let ghost next = all.take(i + 1);
        assert(next.drop_last() =~= all.take(i as int));
        assert(next.last() == rules@[i as int]@);
        let rule = &rules[i];
        let ghost so_far = glob_owner@.map_values(|k: usize| k as int);
        let mut p: usize = 0;
        assert(so_far + Seq::new(0, |k: int| i as int) =~= so_far);
        while p < rule.patterns.len()
            invariant
                p <= rule.patterns@.len(),
                glob_owner@.map_values(|k: usize| k as int) == so_far + Seq::new(
                    p as nat,
                    |k: int| i as int,
                ),
            decreases rule.patterns@.len() - p,
        {
            let ghost before = glob_owner@;
            glob_owner.push(i);
            assert(glob_owner@.map_values(|k: usize| k as int) =~= before.map_values(
                |k: usize| k as int,
            ).push(i as int));
            assert(so_far + Seq::new((p + 1) as nat, |k: int| i as int) =~= (so_far + Seq::new(
                p as nat,
                |k: int| i as int,
            )).push(i as int));
            p = p + 1;
        }
        assert(Seq::new(p as nat, |k: int| i as int) =~= Seq::new(
            next.last().patterns.len(),
            |k: int| next.len() - 1,
        ));
        i = i + 1;
    }
    assert(all.take(i as int) =~= all);
    glob_owner
}

/// Compiles the patterns of all rules into one set, as far as that can be
/// built.
fn build_glob_set(list: &RuleList) -> (r: Option<globset::GlobSet>)
    requires
        list.wf(),
    ensures
        r matches Some(set) ==> set_patterns(set) == flat(list.rules()) && set_backslash(set)
            == list.backslash(),
        flat(list.rules()).len() == 0 ==> r is Some,
{
    build_set(&list.gather())
}

impl EventPathFilter {
    pub closed spec fn root(&self) -> Seq<Part> {
        self.list.root()
    }

    /// The rules in force: all of them, or none where their patterns could
    /// not be compiled together.
    pub closed spec fn rules(&self) -> Seq<RuleView> {
        if set_patterns(self.glob_set) == flat(self.list.rules()) {
            self.list.rules()
        } else {
            Seq::empty()
        }
    }

    pub closed spec fn listed(&self) -> RuleList {
        self.list
    }

    /// Whether `\` separates paths where the rules are matched.
    pub closed spec fn backslash(&self) -> bool {
        self.list.backslash()
    }

    #[verifier::type_invariant]
    closed spec fn inv(&self) -> bool {
        &&& self.list.wf()
        &&& owned(self.glob_owner@, self.list.rules())
        &&& set_patterns(self.glob_set) == flat(self.list.rules()) || set_patterns(
            self.glob_set,
        ).len() == 0
        &&& set_patterns(self.glob_set).len() > 0 ==> set_backslash(self.glob_set)
            == self.list.backslash()
    }

    /// The filter of the rules whose patterns were compiled into one set.
    /// Where that set could not be built, no rule is in force.
    pub fn with_set(list: RuleList, built: Option<globset::GlobSet>) -> (r: EventPathFilter)
        requires
            list.wf(),
            built matches Some(set) ==> set_patterns(set) == flat(list.rules()) && set_backslash(
                set,
            ) == list.backslash(),
        ensures
            r.root() == list.root(),
            r.listed() == list,
            r.backslash() == list.backslash(),
            built is Some ==> r.rules() == list.rules(),
            built is None && flat(list.rules()).len() > 0 ==> r.rules().len() == 0,
    {
        let glob_owner = pattern_owners(&list.rules);
        let glob_set = match built {
            Some(set) => set,
            None => empty_set(),
        };
        EventPathFilter { list, glob_set, glob_owner }
    }

    /// Compiles the rules. Rules without patterns are in force; of others,
    /// all are or none.
    pub fn compile(list: RuleList) -> (r: EventPathFilter)
        requires
            list.wf(),
        ensures
            r.root() == list.root(),
            r.listed() == list,
            r.backslash() == list.backslash(),
            r.rules() == list.rules() || r.rules().len() == 0,
            flat(list.rules()).len() == 0 ==> r.rules() == list.rules(),
    {
        let built = build_glob_set(&list);
        EventPathFilter::with_set(list, built)
    }

    /// The rules, to append more.
    pub fn into_list(self) -> (r: RuleList)
        ensures
            r == self.listed(),
            r.wf(),
    {
        proof {
            use_type_invariant(&self);
        }
        self.list
    }

    /// Whether the rules ignore the path, whatever it is.
    pub fn evaluate_rules(&self, path: &FsPath) -> (r: bool)
        ensures
            r == ruled_out(self.backslash(), self.rules(), self.root(), path@),
    {
        proof {
            use_type_invariant(self);
        }
        let relative = match path.strip_prefix(&self.list.watch_root) {
            Some(relative) => relative,
            None => {
                return false;
            },
        };
        let text = normalize_relative_path(&relative);
        if is_blank(&text) {
            return false;
        }
        let numbers = matching_patterns(&self.glob_set, text.as_str());
        let ghost platform = self.backslash();
        let ghost rules = self.list.rules();
        let ghost patterns = set_patterns(self.glob_set);
        proof {
            lemma_owners(rules);
        }
        if numbers.len() == 0 {
            proof {
                if patterns == flat(rules) {
                    assert forall|k: int| -1 < k < flat(rules).len() implies !glob_matches(
                        platform,
                        #[trigger] flat(rules)[k],
                        text@,
                    ) by {
                        if glob_matches(platform, patterns[k], text@) {
                            assert(exists|j: int|
                                0 <= j < numbers@.len() && #[trigger] numbers@[j] == k);
                        }
                    }
                    lemma_last_match(platform, rules, text@, -1);
                }
                assert(!ruled_out(platform, self.rules(), self.root(), path@));
            }
            return false;
        }
        let ghost top = numbers@.len() - 1;
        let last: usize = numbers[numbers.len() - 1];
        assert(last == numbers@[top]);
        assert(last < patterns.len());
        proof {
            assert(glob_matches(platform, patterns[last as int], text@)) by {
                assert(0 <= top < numbers@.len() && numbers@[top] == last as int);
            }
            assert forall|k: int| last < k < flat(rules).len() implies !glob_matches(
                platform,
                #[trigger] flat(rules)[k],
                text@,
            ) by {
                if glob_matches(platform, patterns[k], text@) {
                    let j = choose|j: int|
                        0 <= j < numbers@.len() && #[trigger] numbers@[j] == k;
                    if j < top {
                        assert(numbers@[j] < numbers@[top]);
                    }
                }
            }
            lemma_last_match(platform, rules, text@, last as int);
            assert(self.glob_owner@.map_values(|k: usize| k as int)[last as int] == owners(
                rules,
            )[last as int]);
        }
        let rule: usize = self.glob_owner[last];
        let r = matches!(self.list.rules[rule].action, RuleAction::Ignore);
        assert(self.list.rules@[rule as int]@ == rules[rule as int]);
        assert(r == ruled_out(platform, self.rules(), self.root(), path@));
        r
    }

    /// Whether the sync never sees the path.
    pub fn should_ignore(&self, path: &FsPath) -> (r: bool)
        ensures
            r == ignored(self.backslash(), self.rules(), self.root(), path@),
    {
        if is_internal_artifact(path) {
            return true;
        }
        match path.strip_prefix(&self.list.watch_root) {
            Some(relative) => {
                if passes_internal_directory(&relative) {
                    return true;
                }
            },
            None => {
                return false;
            },
        }
        self.evaluate_rules(path)
    }
}

// ---------------------------------------------------------------------------
// Ignore files
// ---------------------------------------------------------------------------

/// The rules once ignore files are appended, one after the other.
pub open spec fn with_files(
    backslash: bool,
    before: Seq<RuleView>,
    root: Seq<Part>,
    files: Seq<IgnoreFile>,
) -> Seq<RuleView>
    decreases files.len(),
{
    if files.len() == 0 {
        before
    } else {
        with_lines(
            backslash,
            with_files(backslash, before, root, files.drop_last()),
            pieces(files.last().contents@, '\n'),
            base_of(root, files.last().path@),
        )
    }
}

/// The files of a kind, none when it is switched off.
pub open spec fn enabled_files(enabled: bool, files: Seq<IgnoreFile>) -> Seq<IgnoreFile> {
    if enabled {
        files
    } else {
        Seq::empty()
    }
}

/// The rules of a filter: user rules, ignore files of both kinds, user rules.
pub open spec fn assembled(
    backslash: bool,
    root: Seq<Part>,
    options: EventPathFilterOptions,
    git_files: Seq<IgnoreFile>,
    vapor_files: Seq<IgnoreFile>,
) -> Seq<RuleView> {
    let first = with_lines(
        backslash,
        Seq::empty(),
        text_views(options.pre_user_rules@),
        Seq::empty(),
    );
    let second = with_files(
        backslash,
        first,
        root,
        enabled_files(options.use_gitignore, git_files),
    );
    let third = with_files(
        backslash,
        second,
        root,
        enabled_files(options.use_vaporignore, vapor_files),
    );
    with_lines(backslash, third, text_views(options.post_user_rules@), Seq::empty())
}

impl RuleList {
    /// Appends the rules of ignore files, in their order.
    pub fn append_rules_from_files(&mut self, files: &Vec<IgnoreFile>)
        requires
            old(self).wf(),
        ensures
            final(self).wf(),
            final(self).root() == old(self).root(),
            final(self).backslash() == old(self).backslash(),
            final(self).rules() == with_files(
                old(self).backslash(),
                old(self).rules(),
                old(self).root(),
                files@,
            ),
    {
        let mut i: usize = 0;
        assert(files@.take(0) =~= Seq::empty());
        while i < files.len()
            invariant
                i <= files@.len(),
                self.wf(),
                self.root() == old(self).root(),
                self.backslash() == old(self).backslash(),
                self.rules() == with_files(
                    old(self).backslash(),
                    old(self).rules(),
                    old(self).root(),
                    files@.take(i as int),
                ),
            decreases files@.len() - i,
        {
            assert(files@.take(i + 1).drop_last() =~= files@.take(i as int));
            let _ = self.append_rules_from_file(&files[i]);
            i = i + 1;
        }
        assert(files@.take(i as int) =~= files@);
    }
}

impl EventPathFilter {
    /// The filter of a watch root whose ignore files have been read. Files of
    /// a kind that is switched off do not count.
    pub fn for_watch_root(
        watch_root: &FsPath,
        options: &EventPathFilterOptions,
        git_files: &Vec<IgnoreFile>,
        vapor_files: &Vec<IgnoreFile>,
    ) -> (r: EventPathFilter)
        ensures
            r.root() == watch_root@,
            r.listed().root() == watch_root@,
            r.listed().backslash() == r.backslash(),
            r.listed().rules() == assembled(
                r.backslash(),
                watch_root@,
                *options,
                git_files@,
                vapor_files@,
            ),
            r.rules() == r.listed().rules() || r.rules().len() == 0,
            flat(r.listed().rules()).len() == 0 ==> r.rules() == r.listed().rules(),
    {
        let mut list = RuleList::new(watch_root.clone());
        let _ = list.append_user_rules(&options.pre_user_rules);
        if options.use_gitignore {
            list.append_rules_from_files(git_files);
        }
        if options.use_vaporignore {
            list.append_rules_from_files(vapor_files);
        }
        let _ = list.append_user_rules(&options.post_user_rules);
        EventPathFilter::compile(list)
    }
}

/// Directories ignore files are not looked for in.
pub open spec fn is_heavy_name(name: Seq<char>) -> bool {
    name == ".git"@ || name == ".npm"@ || name == ".parcel-cache"@ || name == ".pnpm-store"@
        || name == ".turbo"@ || name == ".vite"@ || name == ".yarn"@ || name == "build"@ || name
        == "coverage"@ || name == "dist"@ || name == "node_modules"@ || name == "out"@ || name
        == "storybook-static"@ || name == "target"@
}

/// Whether ignore files are not looked for in a directory of this name. All
/// but `.git` are ignored by default anyway; `.git` holds none of the user's.
pub fn is_heavy_ignore_discovery_skip_dir(name: &str) -> (r: bool)
    ensures
        r == is_heavy_name(name@),
{
    same_text(name, ".git") || same_text(name, ".npm") || same_text(name, ".parcel-cache")
        || same_text(name, ".pnpm-store") || same_text(name, ".turbo") || same_text(name, ".vite")
        || same_text(name, ".yarn") || same_text(name, "build") || same_text(name, "coverage")
        || same_text(name, "dist") || same_text(name, "node_modules") || same_text(name, "out")
        || same_text(name, "storybook-static") || same_text(name, "target")
}

/// What a directory entry is.
#[derive(Clone, Copy, Debug, PartialEq, Eq, Structural)]
pub enum EntryKind {
    Directory,
    File,
    Other,
}

/// Looks for ignore files below a root: directories still to be read, and
/// files found so far.
#[derive(Debug)]
pub struct IgnoreDiscovery {
    file_name: String,
    pending: Vec<FsPath>,
    discovered: Vec<FsPath>,
}

/// Order ignore files are applied in: the shallow first, then by their text.
pub open spec fn applied_before(a: Seq<Part>, b: Seq<Part>) -> bool {
    a.len() < b.len() || (a.len() == b.len() && !text_less(path_text(b), path_text(a)))
}

pub open spec fn in_order(paths: Seq<Seq<Part>>) -> bool {
    forall|i: int, j: int|
        0 <= i < j < paths.len() ==> applied_before(#[trigger] paths[i], #[trigger] paths[j])
}

proof fn lemma_applied_before_transitive(a: Seq<Part>, b: Seq<Part>, c: Seq<Part>)
    requires
        applied_before(a, b),
        applied_before(b, c),
    ensures
        applied_before(a, c),
{
    let (x, y, z) = (path_text(a), path_text(b), path_text(c));
    if a.len() == c.len() && text_less(z, x) {
        lemma_text_less_total(x, y);
        lemma_text_less_total(y, z);
        if text_less(x, y) {
            lemma_text_less_transitive(z, x, y);
        }
    }
}

/// Paths as mathematical values.
pub open spec fn views_of(paths: Seq<FsPath>) -> Seq<Seq<Part>> {
    paths.map_values(|p: FsPath| p@)
}

impl IgnoreDiscovery {
    pub closed spec fn looked_for(&self) -> Seq<char> {
        self.file_name@
    }

    pub closed spec fn queue(&self) -> Seq<Seq<Part>> {
        views_of(self.pending@)
    }

    pub closed spec fn found(&self) -> Seq<Seq<Part>> {
        views_of(self.discovered@)
    }

    /// Starts at the watch root.
    pub fn start(watch_root: FsPath, file_name: &str) -> (r: IgnoreDiscovery)
        ensures
            r.looked_for() == file_name@,
            r.queue() == seq![watch_root@],
            r.found() == Seq::<Seq<Part>>::empty(),
            in_order(r.found()),
    {
        let mut pending: Vec<FsPath> = Vec::new();
        pending.push(watch_root);
        let r = IgnoreDiscovery {
            file_name: file_name.to_owned(),
            pending,
            discovered: Vec::new(),
        };
        assert(r.queue() =~= seq![watch_root@]);
        assert(r.found() =~= Seq::<Seq<Part>>::empty());
        r
    }

    /// The next directory to read.
    pub fn next_directory(&mut self) -> (r: Option<FsPath>)
        ensures
            final(self).looked_for() == old(self).looked_for(),
            final(self).found() == old(self).found(),
            match r {
                Some(directory) => old(self).queue().len() > 0 && directory@
                    == old(self).queue().last() && final(self).queue()
                    == old(self).queue().drop_last(),
                None => old(self).queue().len() == 0 && final(self).queue() == old(self).queue(),
            },
    {
        let ghost before = self.queue();
        let r = self.pending.pop();
        assert(r is Some ==> self.queue() =~= before.drop_last());
        r
    }

    /// Takes one entry of a directory. Directories the rules so far exclude
    /// are not entered, so an ignore file in one cannot let anything back in.
    pub fn note_entry(&mut self, filter: &EventPathFilter, path: FsPath, kind: EntryKind)
        requires
            in_order(old(self).found()),
        ensures
            in_order(final(self).found()),
            final(self).looked_for() == old(self).looked_for(),
            match kind {
                EntryKind::Directory => final(self).found() == old(self).found() && if (file_name_of(
                    path@,
                ) matches Some(name) && is_heavy_name(name)) {
                    final(self).queue() == old(self).queue()
                } else {
                    final(self).queue() == if ruled_out(
                        filter.backslash(),
                        filter.rules(),
                        filter.root(),
                        path@,
                    ) {
                        old(self).queue()
                    } else {
                        old(self).queue().push(path@)
                    }
                },
                EntryKind::File => final(self).queue() == old(self).queue() && if file_name_of(
                    path@,
                ) == Some(old(self).looked_for()) {
                    exists|k: int|
                        0 <= k <= old(self).found().len() && final(self).found() == #[trigger] old(
                            self,
                        ).found().insert(k, path@)
                } else {
                    final(self).found() == old(self).found()
                },
                EntryKind::Other => final(self).queue() == old(self).queue() && final(self).found()
                    == old(self).found(),
            },
    {
        let name = path.file_name();
        match kind {
            EntryKind::Directory => {
                let heavy = match &name {
                    Some(name) => is_heavy_ignore_discovery_skip_dir(name.as_str()),
                    None => false,
                };
                if heavy {
                    return;
                }
                let excluded = filter.evaluate_rules(&path);
                if !excluded {
                    let ghost before = self.queue();
                    self.pending.push(path);
                    assert(self.queue() =~= before.push(path@));
                }
            },
            EntryKind::File => {
                let fits = match &name {
                    Some(name) => same_text(name.as_str(), self.file_name.as_str()),
                    None => false,
                };
                if fits {
                    self.insert_discovered(path);
                }
            },
            EntryKind::Other => {},
        }
    }

    fn insert_discovered(&mut self, path: FsPath)
        requires
            in_order(old(self).found()),
        ensures
            in_order(final(self).found()),
            final(self).looked_for() == old(self).looked_for(),
            final(self).queue() == old(self).queue(),
            exists|k: int|
                0 <= k <= old(self).found().len() && final(self).found() == #[trigger] old(
                    self,
                ).found().insert(k, path@),
    {
        let ghost before = self.found();
        let text = path.to_text();
        let mut at: usize = 0;
        while at < self.discovered.len()
            invariant
                at <= self.discovered@.len(),
                before == views_of(self.discovered@),
                before == old(self).found(),
                *self == *old(self),
                in_order(before),
                text@ == path_text(path@),
                forall|j: int| 0 <= j < at ==> applied_before(#[trigger] before[j], path@),
            ensures
                at < self.discovered@.len() ==> applied_before(path@, before[at as int]),
            decreases self.discovered@.len() - at,
        {
            let other = &self.discovered[at];
            let earlier = if other.len() < path.len() {
                true
            } else if other.len() > path.len() {
                false
            } else {
                match compare_text(other.to_text().as_str(), text.as_str()) {
                    Order::Greater => false,
                    Order::Less => {
                        proof {
                            lemma_text_less_irreflexive(text@);
                            if text_less(text@, path_text(other@)) {
                                lemma_text_less_transitive(
                                    text@,
                                    path_text(other@),
                                    text@,
                                );
                            }
                        }
                        true
                    },
                    Order::Equal => {
                        proof {
                            lemma_text_less_irreflexive(text@);
                        }
                        true
                    },
                }
            };
            assert(before[at as int] == other@);
            if !earlier {
                break;
            }
            at = at + 1;
        }
        self.discovered.insert(at, path);
        proof {
            let after = self.found();
            assert(after =~= before.insert(at as int, path@));
            assert forall|i: int, j: int| 0 <= i < j < after.len() implies applied_before(
                #[trigger] after[i],
                #[trigger] after[j],
            ) by {
                let a = if i < at {
                    i
                } else {
                    i - 1
                };
                let b = if j < at {
                    j
                } else {
                    j - 1
                };
                if i != at && j != at {
                    assert(after[i] == before[a] && after[j] == before[b]);
                } else if i == at {
                    assert(after[j] == before[b]);
                    if b > at {
                        lemma_applied_before_transitive(path@, before[at as int], before[b]);
                    }
                } else {
                    assert(after[i] == before[a]);
                }
            }
            assert(old(self).found().insert(at as int, path@) == self.found());
        }
    }

    /// The files found, in the order they are applied.
    pub fn finish(self) -> (r: Vec<FsPath>)
        ensures
            views_of(r@) == self.found(),
    {
        self.discovered
    }
}

// ---------------------------------------------------------------------------
// What the filter is for
// ---------------------------------------------------------------------------

proof fn lemma_the_last_match_decides(
    backslash: bool,
    rules: Seq<RuleView>,
    text: Seq<char>,
    k: int,
)
    requires
        0 <= k < rules.len(),
        rule_matches(backslash, rules[k], text),
        forall|j: int|
            k < j < rules.len() ==> !rule_matches(backslash, #[trigger] rules[j], text),
    ensures
        verdict(backslash, rules, text) == (rules[k].action == RuleAction::Ignore),
    decreases rules.len(),
{
    if k < rules.len() - 1 {
        let front = rules.drop_last();
        assert(!rule_matches(backslash, rules[rules.len() - 1], text));
        assert forall|j: int| k < j < front.len() implies !rule_matches(
            backslash,
            #[trigger] front[j],
            text,
        ) by {
            assert(front[j] == rules[j]);
        }
        assert(front[k] == rules[k]);
        lemma_the_last_match_decides(backslash, front, text, k);
    }
}

proof fn lemma_no_match_keeps(backslash: bool, rules: Seq<RuleView>, text: Seq<char>)
    requires
        forall|j: int|
            0 <= j < rules.len() ==> !rule_matches(backslash, #[trigger] rules[j], text),
    ensures
        !verdict(backslash, rules, text),
    decreases rules.len(),
{
    if rules.len() > 0 {
        let front = rules.drop_last();
        assert(!rule_matches(backslash, rules[rules.len() - 1], text));
        assert forall|j: int| 0 <= j < front.len() implies !rule_matches(
            backslash,
            #[trigger] front[j],
            text,
        ) by {
            assert(front[j] == rules[j]);
        }
        lemma_no_match_keeps(backslash, front, text);
    }
}

/// A path below the root is ruled out exactly if the last rule that matches
/// its relative text says so; one that no rule matches is kept, and so is
/// every path outside the root and the root itself.
pub proof fn law_the_last_matching_rule_decides(
    filter: EventPathFilter,
    path: FsPath,
    relative: FsPath,
    text: String,
    r: bool,
)
    requires
        call_ensures(EventPathFilter::evaluate_rules, (&filter, &path), r),
        call_ensures(normalize_relative_path, (&relative,), text),
        filter.root().len() <= path@.len() ==> relative@ == path@.skip(filter.root().len() as int),
    ensures
        ({
            let rules = filter.rules();
            let b = filter.backslash();
            let below = filter.root().len() <= path@.len() && path@.take(
                filter.root().len() as int,
            ) == filter.root();
            &&& !below ==> !r
            &&& below && text@.len() == 0 ==> !r
            &&& (forall|k: int|
                0 <= k < rules.len() ==> !rule_matches(b, #[trigger] rules[k], text@)) ==> !r
            &&& below && text@.len() > 0 ==> forall|k: int|
                (0 <= k < rules.len() && rule_matches(b, #[trigger] rules[k], text@) && forall|
                    j: int,
                |
                    k < j < rules.len() ==> !rule_matches(b, #[trigger] rules[j], text@)) ==> (r
                    <==> rules[k].action == RuleAction::Ignore)
        }),
{
    let rules = filter.rules();
    let b = filter.backslash();
    if forall|k: int| 0 <= k < rules.len() ==> !rule_matches(b, #[trigger] rules[k], text@) {
        lemma_no_match_keeps(b, rules, text@);
    }
    assert forall|k: int|
        (0 <= k < rules.len() && rule_matches(b, #[trigger] rules[k], text@) && forall|j: int|
            k < j < rules.len() ==> !rule_matches(b, #[trigger] rules[j], text@)) implies verdict(
        b,
        rules,
        text@,
    ) == (rules[k].action == RuleAction::Ignore) by {
        lemma_the_last_match_decides(b, rules, text@, k);
    }
}

/// The daemon's own files are ignored wherever they are: those it writes
/// before moving them in, those that keep metadata, and its directory with
/// all that lies in it. Of the others the rules alone decide.
pub proof fn law_own_files_are_never_synced(
    filter: EventPathFilter,
    path: FsPath,
    ruled: bool,
    r: bool,
)
    requires
        call_ensures(EventPathFilter::should_ignore, (&filter, &path), r),
        call_ensures(EventPathFilter::evaluate_rules, (&filter, &path), ruled),
    ensures
        ({
            let below = filter.root().len() <= path@.len() && path@.take(
                filter.root().len() as int,
            ) == filter.root();
            let own = |name: Seq<char>|
                (".vapor-tmp-"@.len() <= name.len() && name.take(".vapor-tmp-"@.len() as int)
                    == ".vapor-tmp-"@) || (".vapor-meta.json"@.len() <= name.len() && name.skip(
                    name.len() - ".vapor-meta.json"@.len(),
                ) == ".vapor-meta.json"@) || name == ".vapor"@;
            &&& ruled ==> r
            &&& file_name_of(path@) matches Some(name) ==> (own(name) ==> r)
            &&& below ==> forall|i: int|
                filter.root().len() <= i < path@.len() && #[trigger] path@[i] == Part::Normal(
                    ".vapor"@,
                ) ==> r
            &&& !ruled && !(file_name_of(path@) is Some && own(file_name_of(path@)->0)) && (!below
                || forall|i: int|
                filter.root().len() <= i < path@.len() ==> #[trigger] path@[i] != Part::Normal(
                    ".vapor"@,
                )) ==> !r
        }),
{
    let n = filter.root().len() as int;
    let rest = path@.skip(n);
    assert(INTERNAL_DIRECTORY_NAME@ == ".vapor"@);
    if n <= path@.len() {
        if exists|i: int| n <= i < path@.len() && #[trigger] path@[i] == Part::Normal(".vapor"@) {
            let i = choose|i: int|
                n <= i < path@.len() && #[trigger] path@[i] == Part::Normal(".vapor"@);
            assert(is_internal_directory(rest[i - n]));
        }
        if through_internal_directory(rest) {
            let i = choose|i: int| 0 <= i < rest.len() && is_internal_directory(#[trigger] rest[i]);
            assert(path@[i + n] == rest[i]);
        }
    }
}

/// A relative path is matched with slashes only; nothing else of its text is
/// changed.
pub proof fn law_a_relative_path_has_slashes(path: FsPath, r: String)
    requires
        call_ensures(normalize_relative_path, (&path,), r),
    ensures
        r@.len() == path_text(path@).len(),
        !r@.contains('\\'),
        forall|i: int|
            0 <= i < r@.len() ==> #[trigger] r@[i] == path_text(path@)[i] || (r@[i] == '/'
                && path_text(path@)[i] == '\\'),
{
    let text = path_text(path@);
    assert(r@ == slashed(text));
    assert(r@.len() == text.len());
    assert forall|i: int| 0 <= i < r@.len() implies #[trigger] r@[i] != '\\' && (r@[i] == text[i]
        || (r@[i] == '/' && text[i] == '\\')) by {
        assert(slashed(text)[i] == if text[i] == '\\' {
            '/'
        } else {
            text[i]
        });
    }
    if r@.contains('\\') {
        let i = r@.index_of('\\');
        assert(r@[i] == '\\');
    }
}

/// A rule line, white space aside: a blank one and a comment say nothing, an
/// exclamation mark takes back, a backslash makes either mark part of the
/// pattern, and everything else rules out.
pub proof fn law_a_line_says_what_its_mark_says(
    raw: &str,
    line: String,
    r: Option<(RuleAction, String)>,
)
    requires
        call_ensures(parse_rule_line, (raw,), r),
        call_ensures(trim, (raw,), line),
    ensures
        line@.len() == 0 ==> r is None,
        line@.len() > 0 && line@[0] == '#' ==> r is None,
        line@.len() > 0 && line@[0] == '!' ==> (r matches Some(rule) ==> rule.0
            == RuleAction::Allow && rule.1@.len() > 0),
        line@.len() > 1 && line@[0] == '!' && !crate::text::is_white_space(line@[1]) ==> r is Some
            && (r->0).1@ == trimmed(line@.skip(1)),
        line@.len() > 1 && line@[0] == '\\' && (line@[1] == '!' || line@[1] == '#') ==> r is Some
            && (r->0).0 == RuleAction::Ignore && (r->0).1@ == line@.skip(1),
        line@.len() > 0 && line@[0] != '#' && line@[0] != '!' && line@[0] != '\\' ==> r is Some && (
        r->0).0 == RuleAction::Ignore && (r->0).1@ == line@,
        line@.len() == 1 && line@[0] == '\\' ==> r is Some && (r->0).1@ == line@,
        line@.len() > 1 && line@[0] == '\\' && line@[1] != '!' && line@[1] != '#' ==> r is Some && (
        r->0).0 == RuleAction::Ignore && (r->0).1@ == line@,
{
    let l = line@;
    if l.len() > 1 {
        let two = l.take(2);
        assert(two[0] == l[0] && two[1] == l[1]);
        assert(begins_with(l, seq!['\\', '!']) <==> l[0] == '\\' && l[1] == '!') by {
            if l[0] == '\\' && l[1] == '!' {
                assert(two =~= seq!['\\', '!']);
            }
            assert(seq!['\\', '!'][0] == '\\' && seq!['\\', '!'][1] == '!');
        }
        assert(begins_with(l, seq!['\\', '#']) <==> l[0] == '\\' && l[1] == '#') by {
            if l[0] == '\\' && l[1] == '#' {
                assert(two =~= seq!['\\', '#']);
            }
            assert(seq!['\\', '#'][0] == '\\' && seq!['\\', '#'][1] == '#');
        }
        if l[0] == '\\' && l[1] == '!' {
            assert(seq!['!'] + l.skip(2) =~= l.skip(1));
        }
        if l[0] == '\\' && l[1] == '#' {
            assert(seq!['#'] + l.skip(2) =~= l.skip(1));
        }
        if l[0] == '!' && !crate::text::is_white_space(l[1]) {
            lemma_trim_keeps_a_first_letter(l.skip(1));
        }
    }
}

proof fn lemma_trim_keeps_a_first_letter(s: Seq<char>)
    requires
        s.len() > 0,
        !crate::text::is_white_space(s[0]),
    ensures
        trimmed(s).len() > 0,
{
    lemma_trim_end_keeps(s);
}

proof fn lemma_trim_end_keeps(s: Seq<char>)
    requires
        s.len() > 0,
        !crate::text::is_white_space(s[0]),
    ensures
        crate::text::trimmed_end(s).len() > 0,
    decreases s.len(),
{
    if s.len() > 1 && crate::text::is_white_space(s.last()) {
        assert(s.drop_last()[0] == s[0]);
        lemma_trim_end_keeps(s.drop_last());
    }
}

/// Case and white space do not matter to a flag.
pub proof fn law_a_flag_is_read_loosely(
    a: &str,
    b: &str,
    x: String,
    y: String,
    p: Option<bool>,
    q: Option<bool>,
)
    requires
        call_ensures(parse_bool_flag, (a,), p),
        call_ensures(parse_bool_flag, (b,), q),
        call_ensures(trim, (a,), x),
        call_ensures(trim, (b,), y),
        ascii_folded(x@) == ascii_folded(y@),
    ensures
        p == q,
        ascii_folded(x@) == "on"@ || ascii_folded(x@) == "true"@ || ascii_folded(x@) == "yes"@
            || ascii_folded(x@) == "1"@ <==> p == Some(true),
        p == Some(false) ==> ascii_folded(x@) == "off"@ || ascii_folded(x@) == "false"@
            || ascii_folded(x@) == "no"@ || ascii_folded(x@) == "0"@,
        ascii_folded(x@) == "off"@ ==> p == Some(false),
        ascii_folded(x@) == "false"@ ==> p == Some(false),
        ascii_folded(x@) == "no"@ ==> p == Some(false),
        ascii_folded(x@) == "0"@ ==> p == Some(false),
{
    reveal_strlit("1");
    reveal_strlit("true");
    reveal_strlit("yes");
    reveal_strlit("on");
    reveal_strlit("0");
    reveal_strlit("false");
    reveal_strlit("no");
    reveal_strlit("off");
    assert("1"@[0] == '1' && "true"@[0] == 't' && "yes"@[0] == 'y' && "on"@[1] == 'n');
    assert("0"@[0] == '0' && "false"@[0] == 'f' && "no"@[0] == 'n' && "off"@[1] == 'f');
}

/// The environment overrides the configuration, a flag in it only where it can
/// be read as one.
pub proof fn law_the_environment_overrides(
    git: &str,
    vapor: &str,
    pre: &str,
    post: &str,
    config: VaporConfig,
    other: VaporConfig,
    flag: Option<bool>,
    vapor_flag: Option<bool>,
    r: EventPathFilterOptions,
    q: EventPathFilterOptions,
    bare: EventPathFilterOptions,
    lines: Vec<String>,
)
    requires
        call_ensures(parse_bool_flag, (git,), flag),
        call_ensures(parse_bool_flag, (vapor,), vapor_flag),
        call_ensures(parse_rule_lines, (pre,), lines),
        call_ensures(
            EventPathFilterOptions::resolve,
            (Some(git), Some(vapor), Some(pre), Some(post), &config),
            r,
        ),
        call_ensures(
            EventPathFilterOptions::resolve,
            (Some(git), Some(vapor), Some(pre), Some(post), &other),
            q,
        ),
        call_ensures(EventPathFilterOptions::resolve, (None, None, None, None, &config), bare),
    ensures
        flag matches Some(on) ==> r.use_gitignore == on,
        flag is None ==> r.use_gitignore == config.use_git_ignore,
        text_views(r.pre_user_rules@) == text_views(lines@),
        text_views(r.pre_user_rules@) == text_views(q.pre_user_rules@),
        text_views(r.post_user_rules@) == text_views(q.post_user_rules@),
        bare.use_gitignore == config.use_git_ignore,
        bare.use_vaporignore == config.use_vapor_ignore,
        vapor_flag matches Some(on) ==> r.use_vaporignore == on,
        vapor_flag is None ==> r.use_vaporignore == config.use_vapor_ignore,
{
}

/// Each rule line is one line of the text without the white space around it;
/// blank lines are left out and nothing else.
pub proof fn law_rule_lines_are_the_lines_of_the_text(raw: &str, lines: Vec<String>, r: Vec<String>)
    requires
        call_ensures(crate::text::split, (raw, '\n'), lines),
        call_ensures(parse_rule_lines, (raw,), r),
    ensures
        forall|i: int|
            0 <= i < lines@.len() && trimmed((#[trigger] lines@[i])@).len() > 0 ==> text_views(
                r@,
            ).contains(trimmed(lines@[i]@)),
        forall|k: int|
            0 <= k < r@.len() ==> (#[trigger] r@[k])@.len() > 0 && is_trimmed_line(
                r@[k]@,
                text_views(lines@),
            ),
{
    let all = text_views(lines@);
    lemma_trimmed_lines(all);
    assert forall|i: int|
        0 <= i < lines@.len() && trimmed((#[trigger] lines@[i])@).len() > 0 implies text_views(
        r@,
    ).contains(trimmed(lines@[i]@)) by {
        assert(all[i] == lines@[i]@);
    }
    assert forall|k: int| 0 <= k < r@.len() implies (#[trigger] r@[k])@.len() > 0
        && is_trimmed_line(r@[k]@, all) by {
        assert(text_views(r@)[k] == r@[k]@);
    }
}

/// A line of the text, the white space around it taken off.
pub open spec fn is_trimmed_line(text: Seq<char>, lines: Seq<Seq<char>>) -> bool {
    exists|i: int| 0 <= i < lines.len() && text == trimmed(#[trigger] lines[i])
}

proof fn lemma_trimmed_lines(lines: Seq<Seq<char>>)
    ensures
        forall|i: int|
            0 <= i < lines.len() && trimmed(#[trigger] lines[i]).len() > 0 ==> trimmed_lines(
                lines,
            ).contains(trimmed(lines[i])),
        forall|k: int|
            0 <= k < trimmed_lines(lines).len() ==> (#[trigger] trimmed_lines(lines)[k]).len() > 0
                && is_trimmed_line(trimmed_lines(lines)[k], lines),
    decreases lines.len(),
{
    if lines.len() > 0 {
        let front = lines.drop_last();
        let rest = trimmed_lines(front);
        let all = trimmed_lines(lines);
        lemma_trimmed_lines(front);
        assert forall|i: int|
            0 <= i < lines.len() && trimmed(#[trigger] lines[i]).len() > 0 implies all.contains(
            trimmed(lines[i]),
        ) by {
            if i < front.len() {
                assert(front[i] == lines[i]);
                let k = rest.index_of(trimmed(lines[i]));
                assert(all[k] == trimmed(lines[i]));
            } else {
                assert(all[all.len() - 1] == trimmed(lines[i]));
            }
        }
        assert forall|k: int| 0 <= k < all.len() implies (#[trigger] all[k]).len() > 0
            && is_trimmed_line(all[k], lines) by {
            if k < rest.len() {
                assert(all[k] == rest[k]);
                let i = choose|i: int|
                    0 <= i < front.len() && rest[k] == trimmed(#[trigger] front[i]);
                assert(lines[i] == front[i]);
            } else {
                assert(all[k] == trimmed(lines[lines.len() - 1]));
            }
        }
    }
}

proof fn lemma_slashes_in_front(s: Seq<char>, n: int)
    requires
        0 <= n <= s.len(),
        forall|i: int| 0 <= i < n ==> #[trigger] s[i] == '/',
        n < s.len() ==> s[n] != '/',
    ensures
        without_leading_slashes(s) == s.skip(n),
    decreases n,
{
    if n > 0 {
        let rest = s.skip(1);
        assert(s[0] == '/');
        assert forall|i: int| 0 <= i < n - 1 implies #[trigger] rest[i] == '/' by {
            assert(s[i + 1] == '/');
        }
        lemma_slashes_in_front(rest, n - 1);
        assert(rest.skip(n - 1) =~= s.skip(n));
    } else {
        assert(s.skip(0) =~= s);
    }
}

proof fn lemma_slashes_behind(s: Seq<char>, n: int)
    requires
        0 <= n <= s.len(),
        forall|i: int| n <= i < s.len() ==> #[trigger] s[i] == '/',
        n > 0 ==> s[n - 1] != '/',
    ensures
        without_trailing_slashes(s) == s.take(n),
    decreases s.len(),
{
    if n < s.len() {
        let rest = s.drop_last();
        assert(s[s.len() - 1] == '/');
        assert forall|i: int| n <= i < rest.len() implies #[trigger] rest[i] == '/' by {
            assert(s[i] == '/');
        }
        lemma_slashes_behind(rest, n);
        assert(rest.take(n) =~= s.take(n));
    } else {
        assert(s.take(n) =~= s);
    }
}

/// A pattern matches below the directory of its file, under its own name: at
/// that place alone if a slash leads it or stands inside it, at any depth
/// otherwise, and with all that lies below where it rules out or names a
/// directory.
pub proof fn law_a_pattern_is_anchored_by_its_slashes(
    raw: &str,
    base: &str,
    descend: bool,
    from: int,
    to: int,
    r: Result<Vec<String>, String>,
)
    requires
        call_ensures(expand_glob_patterns, (raw, base, descend), r),
        0 <= from < to <= raw@.len(),
        forall|i: int| 0 <= i < from ==> #[trigger] raw@[i] == '/',
        forall|i: int| to <= i < raw@.len() ==> #[trigger] raw@[i] == '/',
        raw@[from] != '/',
        raw@[to - 1] != '/',
    ensures
        ({
            let name = raw@.subrange(from, to);
            let stem = if base@.len() == 0 {
                name
            } else {
                base@ + seq!['/'] + name
            };
            let deep = if base@.len() == 0 {
                seq!['*', '*', '/'] + name
            } else {
                base@ + seq!['/'] + (seq!['*', '*', '/'] + name)
            };
            let anchored = from > 0 || name.contains('/');
            let below = descend || to < raw@.len();
            &&& r is Ok
            &&& forall|t: Seq<char>|
                #[trigger] text_views(r->Ok_0@).contains(t) <==> (t == stem || (below && t == stem
                    + seq!['/', '*', '*']) || (!anchored && t == deep) || (!anchored && below && t
                    == deep + seq!['/', '*', '*']))
        }),
{
    let s = raw@;
    let name = s.subrange(from, to);
    lemma_slashes_in_front(s, from);
    let rest = s.skip(from);
    assert forall|i: int| to - from <= i < rest.len() implies #[trigger] rest[i] == '/' by {
        assert(s[i + from] == '/');
    }
    assert(rest[to - from - 1] == s[to - 1]);
    lemma_slashes_behind(rest, to - from);
    assert(rest.take(to - from) =~= name);
    assert(pattern_body(s) == name);
    assert(s[0] == '/' <==> from > 0);
    assert(s.last() == '/' <==> to < s.len());
    let texts = text_views(r->Ok_0@);
    let below = descend || s.last() == '/';
    let stem = based(base@, name);
    let deep = based(base@, seq!['*', '*', '/'] + name);
    let all = expansions(s, base@, descend);
    let tail = seq!['/', '*', '*'];
    assert forall|t: Seq<char>| #[trigger] texts.contains(t) <==> (t == stem || (below && t == stem
        + tail) || (!(from > 0 || name.contains('/')) && t == deep) || (!(from > 0
        || name.contains('/')) && below && t == deep + tail)) by {
        let here = seq![stem] + (if below {
            seq![stem + tail]
        } else {
            Seq::empty()
        });
        assert(here[0] == stem);
        if below {
            assert(here[1] == stem + tail);
        }
        if from > 0 || name.contains('/') {
            assert(all == here);
            assert(all.contains(stem));
        } else {
            let m = here.len() as int;
            assert(all[m] == deep);
            assert forall|i: int| 0 <= i < m implies all[i] == here[i] by {}
            if below {
                assert(all[m + 1] == deep + tail);
                assert(all.len() == 4);
                assert(all[1] == stem + tail);
            } else {
                assert(all.len() == 2);
            }
            assert(all[0] == stem);
        }
        if all.contains(t) {
            let i = all.index_of(t);
            assert(all[i] == t);
        }
    }
}

proof fn lemma_lines_go_behind(
    backslash: bool,
    before: Seq<RuleView>,
    lines: Seq<Seq<char>>,
    base: Seq<char>,
)
    ensures
        before.len() <= with_lines(backslash, before, lines, base).len() <= before.len()
            + lines.len(),
        with_lines(backslash, before, lines, base).take(before.len() as int) == before,
    decreases lines.len(),
{
    let after = with_lines(backslash, before, lines, base);
    if lines.len() > 0 {
        lemma_lines_go_behind(backslash, before, lines.drop_last(), base);
        let rest = with_lines(backslash, before, lines.drop_last(), base);
        assert(after.take(before.len() as int) =~= rest.take(before.len() as int));
    } else {
        assert(after.take(before.len() as int) =~= before);
    }
}

proof fn lemma_files_go_behind(
    backslash: bool,
    before: Seq<RuleView>,
    root: Seq<Part>,
    files: Seq<IgnoreFile>,
)
    ensures
        before.len() <= with_files(backslash, before, root, files).len(),
        with_files(backslash, before, root, files).take(before.len() as int) == before,
    decreases files.len(),
{
    let after = with_files(backslash, before, root, files);
    if files.len() > 0 {
        lemma_files_go_behind(backslash, before, root, files.drop_last());
        let rest = with_files(backslash, before, root, files.drop_last());
        lemma_lines_go_behind(
            backslash,
            rest,
            pieces(files.last().contents@, '\n'),
            base_of(root, files.last().path@),
        );
        assert(after.take(before.len() as int) =~= after.take(rest.len() as int).take(
            before.len() as int,
        ));
    } else {
        assert(after.take(before.len() as int) =~= before);
    }
}

/// Rules are appended behind those there are: a line adds one rule or none,
/// and none without saying why unless it has nothing to say.
pub proof fn law_a_rule_is_appended_behind(
    list: &mut RuleList,
    line: &str,
    base: &str,
    parsed: Option<(RuleAction, String)>,
    r: Option<SkippedRule>,
)
    requires
        call_ensures(RuleList::append_rule_line, (list, line, base), r),
        call_ensures(parse_rule_line, (line,), parsed),
    ensures
        ({
            let (before, after) = (old(list).rules(), final(list).rules());
            &&& before.len() <= after.len() <= before.len() + 1
            &&& after.take(before.len() as int) == before
            &&& parsed is None ==> after == before && r is None
            &&& parsed matches Some(rule) ==> (r is None <==> after.len() == before.len() + 1)
            &&& parsed matches Some(rule) ==> (after.len() > before.len() ==> after.last().action
                == rule.0)
            &&& r matches Some(told) ==> parsed is Some && told.pattern@ == (parsed->0).1@
            &&& final(list).root() == old(list).root()
        }),
{
    assert(final(list).rules().take(old(list).rules().len() as int) =~= old(list).rules());
}

/// The rules of a file come behind those there are, so that none of these
/// overrules them.
pub proof fn law_a_files_rules_come_behind(
    list: &mut RuleList,
    file: IgnoreFile,
    r: Vec<SkippedRule>,
)
    requires
        call_ensures(RuleList::append_rules_from_file, (list, &file), r),
    ensures
        old(list).rules().len() <= final(list).rules().len(),
        final(list).rules().take(old(list).rules().len() as int) == old(list).rules(),
{
    lemma_lines_go_behind(
        old(list).backslash(),
        old(list).rules(),
        pieces(file.contents@, '\n'),
        base_of(old(list).root(), file.path@),
    );
}

/// The user's first rules come first, the repository's ignore files next,
/// the daemon's own ignore files behind those and the user's last rules at the
/// end; a kind of file that is switched off adds nothing.
pub proof fn law_rules_are_applied_in_their_order(
    root: FsPath,
    options: EventPathFilterOptions,
    git: Vec<IgnoreFile>,
    vapor: Vec<IgnoreFile>,
    none: Vec<IgnoreFile>,
    without_post: EventPathFilterOptions,
    all: EventPathFilter,
    no_post: EventPathFilter,
    no_vapor: EventPathFilter,
    only_pre: EventPathFilter,
)
    requires
        call_ensures(EventPathFilter::for_watch_root, (&root, &options, &git, &vapor), all),
        call_ensures(
            EventPathFilter::for_watch_root,
            (&root, &without_post, &git, &vapor),
            no_post,
        ),
        call_ensures(
            EventPathFilter::for_watch_root,
            (&root, &without_post, &git, &none),
            no_vapor,
        ),
        call_ensures(
            EventPathFilter::for_watch_root,
            (&root, &without_post, &none, &none),
            only_pre,
        ),
        none@.len() == 0,
        without_post.post_user_rules@.len() == 0,
        without_post.pre_user_rules == options.pre_user_rules,
        without_post.use_gitignore == options.use_gitignore,
        without_post.use_vaporignore == options.use_vaporignore,
        all.backslash() == no_post.backslash(),
        all.backslash() == no_vapor.backslash(),
        all.backslash() == only_pre.backslash(),
    ensures
        ({
            let (a, b, c, d) = (
                only_pre.listed().rules(),
                no_vapor.listed().rules(),
                no_post.listed().rules(),
                all.listed().rules(),
            );
            &&& a.len() <= b.len() <= c.len() <= d.len()
            &&& b.take(a.len() as int) == a
            &&& c.take(b.len() as int) == b
            &&& d.take(c.len() as int) == c
            &&& d.len() <= c.len() + options.post_user_rules@.len()
            &&& a.len() <= options.pre_user_rules@.len()
            &&& !options.use_gitignore ==> b == a
            &&& !options.use_vaporignore ==> c == b
        }),
{
    let k = all.backslash();
    let (a, b, c, d) = (
        only_pre.listed().rules(),
        no_vapor.listed().rules(),
        no_post.listed().rules(),
        all.listed().rules(),
    );
    let pre = text_views(options.pre_user_rules@);
    let post = text_views(options.post_user_rules@);
    assert(text_views(without_post.post_user_rules@) =~= Seq::<Seq<char>>::empty());
    let first = with_lines(k, Seq::empty(), pre, Seq::empty());
    assert(none@ =~= Seq::<IgnoreFile>::empty());
    assert(with_files(k, first, root@, none@) == first);
    assert(with_files(k, first, root@, Seq::<IgnoreFile>::empty()) == first);
    assert(a == first);
    let second = with_files(k, first, root@, enabled_files(options.use_gitignore, git@));
    assert(with_files(k, second, root@, none@) == second);
    assert(b == second);
    let third = with_files(k, second, root@, enabled_files(options.use_vaporignore, vapor@));
    assert(c == third);
    assert(d == with_lines(k, third, post, Seq::empty()));
    lemma_lines_go_behind(k, Seq::empty(), pre, Seq::empty());
    lemma_files_go_behind(k, first, root@, enabled_files(options.use_gitignore, git@));
    lemma_files_go_behind(k, second, root@, enabled_files(options.use_vaporignore, vapor@));
    lemma_lines_go_behind(k, third, post, Seq::empty());
}

/// The search for ignore files goes into exactly the directories that are
/// neither ruled out nor known to hold no sources, and keeps exactly the files
/// of the name it looks for.
pub proof fn law_the_search_skips_what_is_ruled_out(
    search: &mut IgnoreDiscovery,
    filter: EventPathFilter,
    path: FsPath,
    kind: EntryKind,
    ruled: bool,
)
    requires
        call_ensures(IgnoreDiscovery::note_entry, (search, &filter, path, kind), ()),
        call_ensures(EventPathFilter::evaluate_rules, (&filter, &path), ruled),
    ensures
        kind is Directory && ruled ==> final(search).queue() == old(search).queue(),
        kind is Directory && (file_name_of(path@) == Some(".git"@) || file_name_of(path@) == Some(
            "node_modules"@,
        ) || file_name_of(path@) == Some("target"@) || file_name_of(path@) == Some("dist"@)
            || file_name_of(path@) == Some("build"@)) ==> final(search).queue() == old(search).queue(),
        kind is Directory ==> final(search).found() == old(search).found() && (
        final(search).queue() == old(search).queue() || final(search).queue() == old(search).queue().push(path@)),
        !(kind is Directory) ==> final(search).queue() == old(search).queue(),
        kind is Directory && !ruled && (file_name_of(path@) matches Some(name)
            ==> !is_heavy_name(name)) ==> final(search).queue() == old(search).queue().push(path@),
        kind is File && file_name_of(path@) == Some(old(search).looked_for()) ==> final(search).found().contains(path@),
        kind is File && file_name_of(path@) != Some(old(search).looked_for()) ==> final(search).found() == old(search).found(),
        kind is Other ==> final(search).found() == old(search).found(),
{
    if kind is File && file_name_of(path@) == Some(old(search).looked_for()) {
        let k = choose|k: int|
            0 <= k <= old(search).found().len() && final(search).found() == #[trigger] old(search).found().insert(k, path@);
        assert(final(search).found()[k] == path@);
    }
}

} // verus!
