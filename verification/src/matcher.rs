//! Compiles ignore-style path rules into a typed predicate over relative
//! paths.
//!
//! A rule is built from a closed set of primitives: literal characters, the
//! globs `*` (any run of non-separator characters) and `?` (one
//! non-separator character), `!` negation, and a trailing `/` directory-only
//! marker. A rule containing `/` in its body is anchored to the traversal
//! root; any other rule is matched against the path's base name. Rules are
//! evaluated in declaration order with later rules overriding earlier ones.

use vstd::prelude::*;

use crate::errors::Error;
use crate::strutil::basename;
use crate::strutil::lemma_basename_suffix;
use crate::strutil::str_to_chars;

verus! {

/// One compiled ignore rule.
pub struct Pattern {
    /// The rule began with `!`: a match includes the path instead of
    /// excluding it.
    pub negate: bool,
    /// The rule ended with `/`: it matches directories only.
    pub dir_only: bool,
    /// The rule body contains `/`: it is matched against the whole relative
    /// path; otherwise against the base name.
    pub anchored: bool,
    /// The glob body of the rule.
    pub glob: Vec<char>,
}

/// Whether the rule text begins with the negation marker.
pub open spec fn rule_negate(r: Seq<char>) -> bool {
    r.len() > 0 && r[0] == '!'
}

/// The rule text with the negation marker stripped.
pub open spec fn rule_body(r: Seq<char>) -> Seq<char> {
    if rule_negate(r) {
        r.skip(1)
    } else {
        r
    }
}

/// Whether the rule carries the trailing directory-only marker.
pub open spec fn rule_dir_only(r: Seq<char>) -> bool {
    rule_body(r).len() > 0 && rule_body(r).last() == '/'
}

/// The glob body of the rule: the text without its markers.
pub open spec fn rule_glob(r: Seq<char>) -> Seq<char> {
    if rule_dir_only(r) {
        rule_body(r).drop_last()
    } else {
        rule_body(r)
    }
}

/// Whether the rule is anchored to the traversal root.
pub open spec fn rule_anchored(r: Seq<char>) -> bool {
    rule_glob(r).contains('/')
}

/// A rule is valid when its glob body is non-empty and uses only the
/// supported primitives (character classes are not supported).
pub open spec fn rule_valid(r: Seq<char>) -> bool {
    rule_glob(r).len() > 0 && !rule_glob(r).contains('[')
}

/// The compiled pattern carries exactly the parts of the rule text.
pub open spec fn pattern_parses(p: Pattern, r: Seq<char>) -> bool {
    &&& p.negate == rule_negate(r)
    &&& p.dir_only == rule_dir_only(r)
    &&& p.anchored == rule_anchored(r)
    &&& p.glob@ == rule_glob(r)
}

/// Glob matching: `*` matches any run of non-separator characters, `?` one
/// non-separator character, anything else itself.
pub open spec fn glob_match(p: Seq<char>, s: Seq<char>) -> bool
    decreases p.len(), s.len(),
{
    if p.len() == 0 {
        s.len() == 0
    } else if p[0] == '*' {
        glob_match(p.skip(1), s) || (s.len() > 0 && s[0] != '/' && glob_match(p, s.skip(1)))
    } else if s.len() == 0 {
        false
    } else if p[0] == '?' {
        s[0] != '/' && glob_match(p.skip(1), s.skip(1))
    } else {
        p[0] == s[0] && glob_match(p.skip(1), s.skip(1))
    }
}

/// Whether one compiled rule applies to the path.
pub open spec fn pat_matches(p: Pattern, path: Seq<char>, is_dir: bool) -> bool {
    (is_dir || !p.dir_only) && glob_match(
        p.glob@,
        if p.anchored {
            path
        } else {
            basename(path)
        },
    )
}

/// Whether an ordered rule list excludes the path: the latest rule that
/// applies decides, a negated rule deciding for inclusion; with no
/// applicable rule nothing is excluded.
pub open spec fn excluded(rules: Seq<Pattern>, path: Seq<char>, is_dir: bool) -> bool
    decreases rules.len(),
{
    if rules.len() == 0 {
        false
    } else if pat_matches(rules.last(), path, is_dir) {
        !rules.last().negate
    } else {
        excluded(rules.drop_last(), path, is_dir)
    }
}

fn glob_rec(p: &Vec<char>, s: &Vec<char>, pi: usize, si: usize) -> (r: bool)
    requires
        pi <= p@.len(),
        si <= s@.len(),
    ensures
        r == glob_match(p@.skip(pi as int), s@.skip(si as int)),
    decreases p@.len() - pi, s@.len() - si,
{
    let ghost gp = p@.skip(pi as int);
    let ghost gs = s@.skip(si as int);
    if pi == p.len() {
        return si == s.len();
    }
    proof {
        assert(gp[0] == p@[pi as int]);
        assert(gp.skip(1) =~= p@.skip(pi + 1 as int));
        if si < s@.len() {
            assert(gs[0] == s@[si as int]);
            assert(gs.skip(1) =~= s@.skip(si + 1 as int));
        }
    }
    let pc = p[pi];
    if pc == '*' {
        if glob_rec(p, s, pi + 1, si) {
            return true;
        }
        if si < s.len() && s[si] != '/' {
            return glob_rec(p, s, pi, si + 1);
        }
        false
    } else if si == s.len() {
        false
    } else if pc == '?' {
        s[si] != '/' && glob_rec(p, s, pi + 1, si + 1)
    } else {
        pc == s[si] && glob_rec(p, s, pi + 1, si + 1)
    }
}

/// The base name of a path, as characters.
fn basename_chars(path: &Vec<char>) -> (r: Vec<char>)
    ensures
        r@ == basename(path@),
{
    let n = path.len();
    let mut j: usize = n;
    while j > 0 && path[j - 1] != '/'
        invariant
            j <= n,
            n == path@.len(),
            forall|k: int| j <= k < n ==> path@[k] != '/',
        decreases j,
    {
        j -= 1;
    }
    proof {
        lemma_basename_suffix(path@, j as int);
    }
    let mut r: Vec<char> = Vec::new();
    let mut i: usize = j;
    while i < n
        invariant
            j <= i <= n,
            n == path@.len(),
            r@ == path@.subrange(j as int, i as int),
        decreases n - i,
    {
        r.push(path[i]);
        proof {
            assert(path@.subrange(j as int, i + 1 as int) =~= path@.subrange(
                j as int,
                i as int,
            ).push(path@[i as int]));
        }
        i += 1;
    }
    proof {
        assert(path@.subrange(j as int, n as int) =~= path@.skip(j as int));
    }
    r
}

/// Whether one compiled rule applies to the path.
fn pat_matches_exec(p: &Pattern, path: &Vec<char>, is_dir: bool) -> (r: bool)
    ensures
        r == pat_matches(*p, path@, is_dir),
{
    if p.dir_only && !is_dir {
        return false;
    }
    proof {
        assert(p.glob@.skip(0) =~= p.glob@);
        assert(path@.skip(0) =~= path@);
    }
    if p.anchored {
        glob_rec(&p.glob, path, 0, 0)
    } else {
        let base = basename_chars(path);
        proof {
            assert(base@.skip(0) =~= base@);
        }
        glob_rec(&p.glob, &base, 0, 0)
    }
}

/// An ordered list of compiled ignore rules.
pub struct CompiledRules {
    pub rules: Vec<Pattern>,
}

impl CompiledRules {
    /// Whether the rule list excludes the path.
    pub fn excludes(&self, relative_path: &str, is_dir: bool) -> (r: bool)
        ensures
            r == excluded(self.rules@, relative_path@, is_dir),
    {
        let path = str_to_chars(relative_path);
        let n = self.rules.len();
        let mut idx: usize = n;
        proof {
            assert(self.rules@.take(n as int) =~= self.rules@);
        }
        while idx > 0
            invariant
                idx <= n,
                n == self.rules@.len(),
                path@ == relative_path@,
                excluded(self.rules@, relative_path@, is_dir) == excluded(
                    self.rules@.take(idx as int),
                    relative_path@,
                    is_dir,
                ),
            decreases idx,
        {
            idx -= 1;
            let p = &self.rules[idx];
            proof {
                assert(self.rules@.take(idx + 1 as int).last() == self.rules@[idx as int]);
                assert(self.rules@.take(idx + 1 as int).drop_last() =~= self.rules@.take(
                    idx as int,
                ));
            }
            if pat_matches_exec(p, &path, is_dir) {
                return !p.negate;
            }
        }
        false
    }
}

/// Parse one ignore rule into its compiled form.
fn parse_rule(rule: &str) -> (r: Result<Pattern, Error>)
    ensures
        rule_valid(rule@) <==> r is Ok,
        r matches Ok(p) ==> pattern_parses(p, rule@),
        r matches Err(e) ==> e is Pattern,
{
    let chars = str_to_chars(rule);
    let n = chars.len();
    let start: usize = if n > 0 && chars[0] == '!' {
        1
    } else {
        0
    };
    let negate = start == 1;
    let end: usize = if n > start && chars[n - 1] == '/' {
        n - 1
    } else {
        n
    };
    let dir_only = end < n;
    proof {
        assert(rule_body(rule@) =~= chars@.subrange(start as int, n as int));
        if dir_only {
            assert(rule_glob(rule@) =~= chars@.subrange(start as int, end as int));
        } else {
            assert(rule_glob(rule@) =~= chars@.subrange(start as int, end as int));
        }
    }
    if end == start {
        return Err(Error::Pattern(rule.to_owned()));
    }
    let mut glob: Vec<char> = Vec::new();
    let mut anchored = false;
    let mut has_class = false;
    let mut i: usize = start;
    while i < end
        invariant
            start <= i <= end,
            end <= n,
            n == chars@.len(),
            glob@ == chars@.subrange(start as int, i as int),
            anchored == exists|k: int| start <= k < i && chars@[k] == '/',
            has_class == exists|k: int| start <= k < i && chars@[k] == '[',
        decreases end - i,
    {
        let c = chars[i];
        if c == '/' {
            anchored = true;
        }
        if c == '[' {
            has_class = true;
        }
        glob.push(c);
        proof {
            assert(chars@.subrange(start as int, i + 1 as int) =~= chars@.subrange(
                start as int,
                i as int,
            ).push(chars@[i as int]));
        }
        i += 1;
    }
    let ghost gs = rule_glob(rule@);
    proof {
        assert(glob@ == gs);
        assert(anchored == gs.contains('/')) by {
            if anchored {
                let k = choose|k: int| start <= k < end && chars@[k] == '/';
                assert(gs[k - start] == '/');
            }
            if gs.contains('/') {
                let j = choose|j: int| 0 <= j < gs.len() && gs[j] == '/';
                assert(chars@[start + j] == '/');
            }
        }
        assert(has_class == gs.contains('[')) by {
            if has_class {
                let k = choose|k: int| start <= k < end && chars@[k] == '[';
                assert(gs[k - start] == '[');
            }
            if gs.contains('[') {
                let j = choose|j: int| 0 <= j < gs.len() && gs[j] == '[';
                assert(chars@[start + j] == '[');
            }
        }
    }
    if has_class {
        return Err(Error::Pattern(rule.to_owned()));
    }
    Ok(Pattern { negate, dir_only, anchored, glob })
}

/// The kinds of matcher the traversal can consult.
pub enum MatcherKind {
    /// Paths matched by the rules are excluded.
    Exclude(CompiledRules),
}

/// A predicate over relative paths, compiled once from ignore rules.
pub struct Matcher(pub Option<MatcherKind>);

/// Whether the matcher excludes the path; a matcher with no rules compiled
/// excludes everything.
pub open spec fn matcher_excludes(m: Matcher, path: Seq<char>, is_dir: bool) -> bool {
    match m.0 {
        Option::Some(MatcherKind::Exclude(c)) => excluded(c.rules@, path, is_dir),
        Option::None => true,
    }
}

impl Matcher {
    /// Wrap a compiled matcher kind.
    pub fn new(matcher: MatcherKind) -> (r: Self)
        ensures
            r.0 == Some(matcher),
    {
        Matcher(Some(matcher))
    }

    /// Compile an ordered rule list; fails fast with a pattern error if any
    /// rule is invalid.
    pub fn create_matcher(rules: &Vec<String>) -> (r: Result<CompiledRules, Error>)
        ensures
            r is Ok <==> (forall|i: int| 0 <= i < rules@.len() ==> rule_valid(
                (#[trigger] rules@[i])@,
            )),
            r matches Ok(c) ==> c.rules@.len() == rules@.len() && (forall|i: int|
                0 <= i < rules@.len() ==> pattern_parses(
                    #[trigger] c.rules@[i],
                    rules@[i]@,
                )),
            r matches Err(e) ==> e is Pattern,
    {
        let n = rules.len();
        let mut compiled: Vec<Pattern> = Vec::new();
        let mut i: usize = 0;
        while i < n
            invariant
                i <= n,
                n == rules@.len(),
                compiled@.len() == i,
                forall|k: int| 0 <= k < i ==> rule_valid((#[trigger] rules@[k])@),
                forall|k: int|
                    0 <= k < i ==> pattern_parses(#[trigger] compiled@[k], rules@[k]@),
            decreases n - i,
        {
            match parse_rule(rules[i].as_str()) {
                Ok(p) => {
                    compiled.push(p);
                },
                Err(e) => {
                    return Err(e);
                },
            }
            i += 1;
        }
        Ok(CompiledRules { rules: compiled })
    }

    /// True if the path should be excluded.
    pub fn matches(&self, relative_path: &str, is_dir: bool) -> (r: bool)
        ensures
            r == matcher_excludes(*self, relative_path@, is_dir),
    {
        match &self.0 {
            Some(MatcherKind::Exclude(c)) => c.excludes(relative_path, is_dir),
            None => true,
        }
    }

    /// True if the path should be kept, treating it as a file.
    pub fn should_include(&self, relative_path: &str) -> (r: bool)
        ensures
            r == !matcher_excludes(*self, relative_path@, false),
    {
        !self.matches(relative_path, false)
    }
}

} // verus!
