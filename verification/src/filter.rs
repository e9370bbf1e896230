//! The path classifier: which of four fates a path of the working tree meets
//! when the vault is sealed.
//!
//! Patterns are gitignore patterns, matched by the `ignore` crate; what this
//! module believes of it is stated on the `rules_*` functions below.

use vstd::prelude::*;
use ignore::gitignore::{Gitignore, GitignoreBuilder};
use crate::error::VaultError;
use crate::text::{collect_text, chars_of, file_lines, lines_of, same_text, slice_text, texts};

verus! {

/// What becomes of a path when the vault is sealed.
#[derive(Clone, Copy, Debug, PartialEq, Eq, Structural)]
pub enum FilterDecision {
    /// Into the public archive.
    Encrypt,
    /// Into the archive that never leaves the machine.
    IgnoreAndEncrypt,
    /// Removed, and kept nowhere.
    Delete,
    /// Kept in clear text beside the archive.
    Unsecure,
}

impl Default for FilterDecision {
    fn default() -> (r: FilterDecision)
        ensures
            r == FilterDecision::IgnoreAndEncrypt,
    {
        FilterDecision::IgnoreAndEncrypt
    }
}

impl FilterDecision {
    /// The name a policy carries in the rules file.
    pub open spec fn name(self) -> Seq<char> {
        match self {
            FilterDecision::Encrypt => "Encrypt"@,
            FilterDecision::IgnoreAndEncrypt => "IgnoreAndEncrypt"@,
            FilterDecision::Delete => "Delete"@,
            FilterDecision::Unsecure => "Unsecure"@,
        }
    }

    /// The policy that `s` names, if it names one.
    pub open spec fn named(s: Seq<char>) -> Option<FilterDecision> {
        if s == "Encrypt"@ {
            Some(FilterDecision::Encrypt)
        } else if s == "IgnoreAndEncrypt"@ {
            Some(FilterDecision::IgnoreAndEncrypt)
        } else if s == "Delete"@ {
            Some(FilterDecision::Delete)
        } else if s == "Unsecure"@ {
            Some(FilterDecision::Unsecure)
        } else {
            None
        }
    }

    /// Reads a policy from its name; any other text is a configuration error.
    pub fn from_str(s: &str) -> (r: Result<FilterDecision, VaultError>)
        ensures
            r matches Ok(d) ==> Self::named(s@) == Some(d),
            r matches Err(e) ==> e == VaultError::ConfigError && Self::named(s@) is None,
    {
        if same_text(s, "Encrypt") {
            Ok(FilterDecision::Encrypt)
        } else if same_text(s, "IgnoreAndEncrypt") {
            Ok(FilterDecision::IgnoreAndEncrypt)
        } else if same_text(s, "Delete") {
            Ok(FilterDecision::Delete)
        } else if same_text(s, "Unsecure") {
            Ok(FilterDecision::Unsecure)
        } else {
            Err(VaultError::ConfigError)
        }
    }
}

/// The fate of a path, from what the three pattern sets say of it: a delete
/// rule wins over an unsecured rule, which wins over the working tree's own
/// ignore file; a path that none of them names is encrypted.
pub open spec fn decide(
    delete_hit: bool,
    unsecured_hit: bool,
    ignored: bool,
    default_policy: FilterDecision,
) -> FilterDecision {
    if delete_hit {
        FilterDecision::Delete
    } else if unsecured_hit {
        FilterDecision::Unsecure
    } else if ignored {
        default_policy
    } else {
        FilterDecision::Encrypt
    }
}

pub fn decision_for(
    delete_hit: bool,
    unsecured_hit: bool,
    ignored: bool,
    default_policy: FilterDecision,
) -> (r: FilterDecision)
    ensures
        r == decide(delete_hit, unsecured_hit, ignored, default_policy),
{
    if delete_hit {
        FilterDecision::Delete
    } else if unsecured_hit {
        FilterDecision::Unsecure
    } else if ignored {
        default_policy
    } else {
        FilterDecision::Encrypt
    }
}

/// `ignore::gitignore::Gitignore`, carried through as it is.
#[verifier::external_type_specification]
#[verifier::external_body]
pub struct ExGitignore(ignore::gitignore::Gitignore);

/// `ignore::gitignore::GitignoreBuilder`, carried through as it is.
#[verifier::external_type_specification]
#[verifier::external_body]
pub struct ExGitignoreBuilder(ignore::gitignore::GitignoreBuilder);

/// The patterns a builder holds, in the order in which they were added.
pub uninterp spec fn builder_lines(b: GitignoreBuilder) -> Seq<Seq<char>>;

/// The patterns a matcher was built from, in order.
pub uninterp spec fn matcher_lines(g: Gitignore) -> Seq<Seq<char>>;

/// What a line of a gitignore file adds to a builder: nothing where the
/// line is refused, because it holds a glob that cannot be parsed;
/// `Some(None)` where it is taken but holds no pattern, as a comment or a
/// blank line does; and the pattern it holds otherwise.
pub uninterp spec fn gitignore_pattern(line: Seq<char>) -> Option<Option<Seq<char>>>;

/// Whether a matcher can be built from the patterns `lines`.
pub uninterp spec fn gitignore_builds(lines: Seq<Seq<char>>) -> bool;

/// Whether the matcher built from the patterns `lines` ignores the
/// relative path `path`, which is a directory where `is_dir` says so.
pub uninterp spec fn gitignore_ignores(lines: Seq<Seq<char>>, path: Seq<char>, is_dir: bool) -> bool;

/// Calls `GitignoreBuilder::new` with the empty path as root. The new
/// builder holds no pattern.
#[verifier::external_body]
fn rules_new() -> (b: GitignoreBuilder)
    ensures
        builder_lines(b) == Seq::<Seq<char>>::empty(),
{
    GitignoreBuilder::new("")
}

/// Calls `GitignoreBuilder::add_line`. What the line adds depends on the
/// line alone: a line that is refused, and one that holds no pattern, leave
/// the builder as it was; any other adds its pattern at the end.
#[verifier::external_body]
fn rules_add_line(b: &mut GitignoreBuilder, line: &str) -> (ok: bool)
    ensures
        ok == gitignore_pattern(line@) is Some,
        builder_lines(*final(b)) == match gitignore_pattern(line@) {
            Some(Some(pattern)) => builder_lines(*old(b)).push(pattern),
            _ => builder_lines(*old(b)),
        },
{
    b.add_line(None, line).is_ok()
}

/// Calls `GitignoreBuilder::build`. Whether it succeeds depends on the
/// patterns alone, and the matcher holds the builder's patterns.
#[verifier::external_body]
fn rules_build(b: &GitignoreBuilder) -> (r: Option<Gitignore>)
    ensures
        r is Some == gitignore_builds(builder_lines(*b)),
        r matches Some(g) ==> matcher_lines(g) == builder_lines(*b),
{
    b.build().ok()
}

/// Calls `Gitignore::matched` and asks whether the answer is "ignore". For
/// a path without a backslash, which every platform reads alike, the answer
/// depends on the lines, the path and the flag alone.
#[verifier::external_body]
fn rules_match(g: &Gitignore, path: &str, is_dir: bool) -> (hit: bool)
    ensures
        !path@.contains('\\') ==> hit == gitignore_ignores(matcher_lines(*g), path@, is_dir),
{
    g.matched(path, is_dir).is_ignore()
}

/// The patterns that the lines `lines` hold, in order.
pub open spec fn taken(lines: Seq<Seq<char>>) -> Seq<Seq<char>>
    decreases lines.len(),
{
    if lines.len() == 0 {
        Seq::empty()
    } else {
        match gitignore_pattern(lines.last()) {
            Some(Some(pattern)) => taken(lines.drop_last()).push(pattern),
            _ => taken(lines.drop_last()),
        }
    }
}

/// Whether every line of `lines` is taken as a line of a gitignore file.
pub open spec fn all_taken(lines: Seq<Seq<char>>) -> bool {
    forall|i: int| 0 <= i < lines.len() ==> (#[trigger] gitignore_pattern(lines[i])) is Some
}

/// Builds a matcher from `lines`. With `strict`, a line that is refused is
/// a configuration error; without, it is passed over.
pub fn compile_rules(lines: &Vec<String>, strict: bool) -> (r: Result<Gitignore, VaultError>)
    ensures
        r matches Ok(g) ==> matcher_lines(g) == taken(texts(lines@)) && (strict ==> all_taken(
            texts(lines@),
        )),
        r matches Err(e) ==> e == VaultError::ConfigError,
        r is Ok <==> (!strict || all_taken(texts(lines@))) && gitignore_builds(
            taken(texts(lines@)),
        ),
{
    let mut b = rules_new();
    let mut i: usize = 0;
    assert(texts(lines@).take(0) =~= Seq::<Seq<char>>::empty());
    while i < lines.len()
        invariant
            i <= lines.len(),
            builder_lines(b) == taken(texts(lines@).take(i as int)),
            strict ==> all_taken(texts(lines@).take(i as int)),
        decreases lines.len() - i,
    {
        let ok = rules_add_line(&mut b, lines[i].as_str());
        proof {
            let now = texts(lines@).take(i + 1);
            assert(now.drop_last() =~= texts(lines@).take(i as int));
            assert(now.last() == lines@[i as int]@);
        }
        if !ok && strict {
            assert(gitignore_pattern(texts(lines@)[i as int]) is None);
            return Err(VaultError::ConfigError);
        }
        proof {
            if strict {
                let now = texts(lines@).take(i + 1);
                assert forall|k: int| 0 <= k < now.len() implies (#[trigger] gitignore_pattern(
                    now[k],
                )) is Some by {
                    if k < i {
                        assert(now[k] == texts(lines@).take(i as int)[k]);
                    }
                }
            }
        }
        i += 1;
    }
    assert(texts(lines@).take(i as int) =~= texts(lines@));
    match rules_build(&b) {
        Some(g) => Ok(g),
        None => Err(VaultError::ConfigError),
    }
}

/// The rules file, as the host read it: the name of the default policy,
/// where one is set, and each list of patterns under its name.
#[derive(Clone, Debug, PartialEq, Eq)]
pub struct RulesFile {
    pub default_policy: Option<String>,
    pub rules: Vec<(String, Vec<String>)>,
}

/// The rules in force: what becomes of a path that the working tree's own
/// ignore file names, and the two pattern sets of the rules file.
pub struct TomlRules {
    default_policy: FilterDecision,
    unsecured: Option<Gitignore>,
    delete: Option<Gitignore>,
}

impl TomlRules {
    pub closed spec fn default_policy(&self) -> FilterDecision {
        self.default_policy
    }

    /// The patterns of the `unsecured` rule, where the rules file has one.
    pub closed spec fn unsecured_lines(&self) -> Option<Seq<Seq<char>>> {
        match self.unsecured {
            Some(g) => Some(matcher_lines(g)),
            None => None,
        }
    }

    /// The patterns of the `delete` rule, where the rules file has one.
    pub closed spec fn delete_lines(&self) -> Option<Seq<Seq<char>>> {
        match self.delete {
            Some(g) => Some(matcher_lines(g)),
            None => None,
        }
    }
}

/// The index of the first list named `name` at or after `from`;
/// `rules.len()` where there is none.
pub open spec fn rule_at(rules: Seq<(String, Vec<String>)>, from: int, name: Seq<char>) -> int
    decreases rules.len() - from,
{
    if from < 0 || from >= rules.len() {
        rules.len() as int
    } else if rules[from].0@ == name {
        from
    } else {
        rule_at(rules, from + 1, name)
    }
}

proof fn lemma_rule_at_is(rules: Seq<(String, Vec<String>)>, from: int, name: Seq<char>, i: int)
    requires
        0 <= from <= i <= rules.len(),
        i < rules.len() ==> rules[i].0@ == name,
        forall|k: int| from <= k < i ==> rules[k].0@ != name,
    ensures
        rule_at(rules, from, name) == i,
    decreases i - from,
{
    if from < i {
        lemma_rule_at_is(rules, from + 1, name, i);
    }
}

/// The patterns listed under `name`, where the rules file has such a list.
pub open spec fn rule_named(rules: Seq<(String, Vec<String>)>, name: Seq<char>) -> Option<
    Seq<Seq<char>>,
> {
    let i = rule_at(rules, 0, name);
    if i < rules.len() {
        Some(texts(rules[i].1@))
    } else {
        None
    }
}

fn find_rule<'a>(rules: &'a Vec<(String, Vec<String>)>, name: &str) -> (r: Option<
    &'a Vec<String>,
>)
    ensures
        r matches Some(v) ==> rule_named(rules@, name@) == Some(texts(v@)),
        r is None ==> rule_named(rules@, name@) is None,
{
    let mut i: usize = 0;
    while i < rules.len() && !same_text(rules[i].0.as_str(), name)
        invariant
            i <= rules.len(),
            forall|k: int| 0 <= k < i ==> rules@[k].0@ != name@,
        decreases rules.len() - i,
    {
        i += 1;
    }
    proof {
        lemma_rule_at_is(rules@, 0, name@, i as int);
    }
    if i < rules.len() {
        Some(&rules[i].1)
    } else {
        None
    }
}

/// Whether a list of patterns, where there is one, can serve as a rule:
/// every line is a gitignore line and a matcher can be built from them.
pub open spec fn rule_ok(lines: Option<Seq<Seq<char>>>) -> bool {
    match lines {
        Some(l) => all_taken(l) && gitignore_builds(taken(l)),
        None => true,
    }
}

/// The policy a rules file sets: the one it names, or the default where it
/// names none; nothing where the name is no policy.
pub open spec fn policy_of(name: Option<Seq<char>>) -> Option<FilterDecision> {
    match name {
        None => Some(FilterDecision::IgnoreAndEncrypt),
        Some(n) => FilterDecision::named(n),
    }
}

/// The name of the default policy in `config`, as a value of the model.
pub open spec fn policy_name(config: RulesFile) -> Option<Seq<char>> {
    match config.default_policy {
        Some(n) => Some(n@),
        None => None,
    }
}

/// The patterns of a rule once compiled: those of the list, where there is one.
pub open spec fn compiled(lines: Option<Seq<Seq<char>>>) -> Option<Seq<Seq<char>>> {
    match lines {
        Some(l) => Some(taken(l)),
        None => None,
    }
}

fn compile_rule(lines: Option<&Vec<String>>) -> (r: Result<Option<Gitignore>, VaultError>)
    ensures
        r is Ok <==> rule_ok(
            match lines {
                Some(l) => Some(texts(l@)),
                None => None,
            },
        ),
        r matches Ok(Some(g)) ==> lines is Some && matcher_lines(g) == taken(texts(lines->0@)),
        r matches Ok(None) ==> lines is None,
        r matches Err(e) ==> e == VaultError::ConfigError,
{
    match lines {
        None => Ok(None),
        Some(l) => match compile_rules(l, true) {
            Ok(g) => Ok(Some(g)),
            Err(e) => Err(e),
        },
    }
}

/// Whether every list of the rules file goes under a name that is known:
/// `unsecured` or `delete`.
pub open spec fn known_rules(rules: Seq<(String, Vec<String>)>) -> bool {
    forall|i: int|
        0 <= i < rules.len() ==> (#[trigger] rules[i]).0@ == "unsecured"@ || rules[i].0@
            == "delete"@
}

/// Whether a rules file, where there is one, can be turned into rules: its
/// policy name is a policy, it has no list under an unknown name, and both
/// of its pattern lists can serve.
pub open spec fn config_ok(config: Option<RulesFile>) -> bool {
    match config {
        None => true,
        Some(c) => policy_of(policy_name(c)) is Some && known_rules(c.rules@) && rule_ok(
            rule_named(c.rules@, "unsecured"@),
        ) && rule_ok(rule_named(c.rules@, "delete"@)),
    }
}

fn check_known_rules(rules: &Vec<(String, Vec<String>)>) -> (r: bool)
    ensures
        r == known_rules(rules@),
{
    let mut i: usize = 0;
    while i < rules.len()
        invariant
            i <= rules.len(),
            forall|k: int|
                0 <= k < i ==> (#[trigger] rules@[k]).0@ == "unsecured"@ || rules@[k].0@
                    == "delete"@,
        decreases rules.len() - i,
    {
        let name = rules[i].0.as_str();
        if !same_text(name, "unsecured") && !same_text(name, "delete") {
            assert(!(rules@[i as int].0@ == "unsecured"@ || rules@[i as int].0@ == "delete"@));
            return false;
        }
        i += 1;
    }
    true
}

/// Whether `rules` are the rules that the rules file `config` puts in force.
pub open spec fn rules_for(rules: TomlRules, config: Option<RulesFile>) -> bool {
    match config {
        None => rules.default_policy() == FilterDecision::IgnoreAndEncrypt
            && rules.unsecured_lines() is None && rules.delete_lines() is None,
        Some(c) => {
            &&& Some(rules.default_policy()) == policy_of(policy_name(c))
            &&& rules.unsecured_lines() == compiled(rule_named(c.rules@, "unsecured"@))
            &&& rules.delete_lines() == compiled(rule_named(c.rules@, "delete"@))
        },
    }
}

/// The rules file behind a reference, if any.
pub open spec fn config_of(config: Option<&RulesFile>) -> Option<RulesFile> {
    match config {
        Some(c) => Some(*c),
        None => None,
    }
}

/// `line` without the byte-order marks at its start.
pub open spec fn strip_bom(line: Seq<char>) -> Seq<char>
    decreases line.len(),
{
    if line.len() > 0 && line[0] == '\u{feff}' {
        strip_bom(line.skip(1))
    } else {
        line
    }
}

/// The lines of an ignore file: the lines of the text, the first of them
/// without the byte-order marks that an editor may have put at its start.
pub open spec fn ignore_file_lines(text: Seq<char>) -> Seq<Seq<char>> {
    let lines = file_lines(text);
    if lines.len() > 0 {
        lines.update(0, strip_bom(lines[0]))
    } else {
        lines
    }
}

/// The patterns that an ignore file holds; none where the file is absent.
pub open spec fn ignore_lines_of(gitignore: Option<Seq<char>>) -> Seq<Seq<char>> {
    taken(
        match gitignore {
            Some(text) => ignore_file_lines(text),
            None => Seq::empty(),
        },
    )
}

proof fn lemma_strip_bom_range(s: Seq<char>, a: int)
    requires
        0 <= a <= s.len(),
        forall|k: int| 0 <= k < a ==> s[k] == '\u{feff}',
        a < s.len() ==> s[a] != '\u{feff}',
    ensures
        strip_bom(s) == s.subrange(a, s.len() as int),
    decreases a,
{
    if a == 0 {
        assert(s.subrange(0, s.len() as int) == s);
    } else {
        let t = s.skip(1);
        assert forall|k: int| 0 <= k < a - 1 implies t[k] == '\u{feff}' by {
            assert(t[k] == s[k + 1]);
        }
        lemma_strip_bom_range(t, a - 1);
        assert(t.subrange(a - 1, t.len() as int) == s.subrange(a, s.len() as int));
    }
}

/// Splits the text of an ignore file into its lines.
pub fn ignore_lines(text: &str) -> (lines: Vec<String>)
    ensures
        texts(lines@) == ignore_file_lines(text@),
{
    let mut lines = lines_of(text);
    if lines.len() > 0 {
        let ghost before = texts(lines@);
        let cs = chars_of(lines[0].as_str());
        let mut a: usize = 0;
        while a < cs.len() && cs[a] == '\u{feff}'
            invariant
                a <= cs.len(),
                forall|k: int| 0 <= k < a ==> cs@[k] == '\u{feff}',
            decreases cs.len() - a,
        {
            a += 1;
        }
        proof {
            lemma_strip_bom_range(cs@, a as int);
        }
        let first = collect_text(&cs, a, cs.len());
        lines.set(0, first);
        assert(texts(lines@) =~= before.update(0, strip_bom(before[0])));
    }
    lines
}

/// The text behind a reference, if any.
pub open spec fn text_of(text: Option<&str>) -> Option<Seq<char>> {
    match text {
        Some(t) => Some(t@),
        None => None,
    }
}

/// Turns the rules file into the rules in force. Without a rules file the
/// default policy holds and there are no patterns. A policy name that is no
/// policy, a list under a name that is not known, or a pattern that cannot
/// be read, is a configuration error.
pub fn read_rules(config: Option<&RulesFile>) -> (r: Result<TomlRules, VaultError>)
    ensures
        r is Ok <==> config_ok(config_of(config)),
        r matches Ok(rules) ==> rules_for(rules, config_of(config)),
        r matches Err(e) ==> e == VaultError::ConfigError,
{
    match config {
        None => Ok(TomlRules { default_policy: FilterDecision::IgnoreAndEncrypt, unsecured: None, delete: None }),
        Some(c) => {
            let default_policy = match &c.default_policy {
                None => FilterDecision::IgnoreAndEncrypt,
                Some(name) => match FilterDecision::from_str(name.as_str()) {
                    Ok(d) => d,
                    Err(e) => {
                        return Err(e);
                    },
                },
            };
            if !check_known_rules(&c.rules) {
                return Err(VaultError::ConfigError);
            }
            let unsecured = match compile_rule(find_rule(&c.rules, "unsecured")) {
                Ok(g) => g,
                Err(e) => {
                    return Err(e);
                },
            };
            let delete = match compile_rule(find_rule(&c.rules, "delete")) {
                Ok(g) => g,
                Err(e) => {
                    return Err(e);
                },
            };
            Ok(TomlRules { default_policy, unsecured, delete })
        },
    }
}

/// `path` relative to `root`: the path itself under the empty root, the
/// empty path for the root itself, what follows the root and one `/` for a
/// path below it, and nothing for any other path.
pub open spec fn relative(path: Seq<char>, root: Seq<char>) -> Option<Seq<char>> {
    if root.len() == 0 {
        Some(path)
    } else if path == root {
        Some(Seq::empty())
    } else if root.last() == '/' {
        if root.is_prefix_of(path) {
            Some(path.skip(root.len() as int))
        } else {
            None
        }
    } else if (root + seq!['/']).is_prefix_of(path) {
        Some(path.skip(root.len() as int + 1))
    } else {
        None
    }
}

/// Takes `root` off the front of `path`.
pub fn strip_root(path: &str, root: &str) -> (r: Option<String>)
    ensures
        r is Some == relative(path@, root@) is Some,
        r matches Some(rel) ==> relative(path@, root@) == Some(rel@),
{
    let p = chars_of(path);
    let r = chars_of(root);
    if r.len() == 0 {
        return Some(path.to_owned());
    }
    if same_text(path, root) {
        let rel = slice_text(path, 0, 0);
        assert(rel@ =~= Seq::<char>::empty());
        return Some(rel);
    }
    let slash = r[r.len() - 1] == '/';
    let cut: usize = if slash {
        r.len()
    } else {
        if r.len() == usize::MAX {
            assert(p.len() <= usize::MAX);
            assert(!(root@ + seq!['/']).is_prefix_of(path@));
            return None;
        }
        r.len() + 1
    };
    let ghost prefix = if slash {
        root@
    } else {
        root@ + seq!['/']
    };
    if p.len() < cut {
        assert(!prefix.is_prefix_of(path@));
        return None;
    }
    let mut i: usize = 0;
    while i < cut
        invariant
            i <= cut <= p.len(),
            p@ == path@,
            r@ == root@,
            cut == prefix.len(),
            prefix == if slash {
                root@
            } else {
                root@ + seq!['/']
            },
            r.len() > 0,
            path@ != root@,
            slash == (root@.last() == '/'),
            cut as int == if slash {
                r.len() as int
            } else {
                r.len() + 1
            },
            forall|k: int| 0 <= k < i ==> prefix[k] == p@[k],
        decreases cut - i,
    {
        let want: char = if i < r.len() {
            r[i]
        } else {
            '/'
        };
        assert(want == prefix[i as int]);
        if p[i] != want {
            assert(path@.subrange(0, cut as int)[i as int] != prefix[i as int]);
            return None;
        }
        i += 1;
    }
    assert(prefix =~= path@.subrange(0, cut as int));
    let len = p.len();
    let rel = slice_text(path, cut, len);
    assert(rel@ == path@.skip(cut as int));
    Some(rel)
}

/// The classifier of one working tree: its root, its own ignore file, and
/// the rules in force.
pub struct NovFilter {
    root: String,
    git_ignore: Gitignore,
    rules: TomlRules,
}

impl NovFilter {
    pub closed spec fn root(&self) -> Seq<char> {
        self.root@
    }

    /// The patterns of the working tree's own ignore file.
    pub closed spec fn ignore_lines(&self) -> Seq<Seq<char>> {
        matcher_lines(self.git_ignore)
    }

    pub closed spec fn rules(&self) -> TomlRules {
        self.rules
    }

    /// What becomes of the relative path `rel` under this classifier.
    pub open spec fn decision(&self, rel: Seq<char>, is_dir: bool) -> FilterDecision {
        decide(
            self.rules().delete_lines() is Some && gitignore_ignores(
                self.rules().delete_lines()->0,
                rel,
                is_dir,
            ),
            self.rules().unsecured_lines() is Some && gitignore_ignores(
                self.rules().unsecured_lines()->0,
                rel,
                is_dir,
            ),
            gitignore_ignores(self.ignore_lines(), rel, is_dir),
            self.rules().default_policy(),
        )
    }

    /// Whether this is the classifier for the tree at `root` with the
    /// ignore file `gitignore` and the rules file `config`.
    pub open spec fn built_from(
        &self,
        root: Seq<char>,
        gitignore: Option<Seq<char>>,
        config: Option<RulesFile>,
    ) -> bool {
        &&& self.root() == root
        &&& self.ignore_lines() == ignore_lines_of(gitignore)
        &&& rules_for(self.rules(), config)
    }

    /// The classifier for the tree at `root`, whose ignore file holds
    /// `gitignore` and whose rules file holds `config`; either may be absent.
    /// A line of the ignore file that cannot be read is passed over; one of
    /// the rules file is a configuration error.
    pub fn from_root(root: &str, gitignore: Option<&str>, config: Option<&RulesFile>) -> (r: Result<
        NovFilter,
        VaultError,
    >)
        ensures
            r is Ok <==> gitignore_builds(ignore_lines_of(text_of(gitignore))) && config_ok(
                config_of(config),
            ),
            r matches Ok(f) ==> f.built_from(root@, text_of(gitignore), config_of(config)),
            r matches Err(e) ==> e == VaultError::ConfigError,
    {
        let lines = match gitignore {
            Some(text) => ignore_lines(text),
            None => {
                let v: Vec<String> = Vec::new();
                assert(texts(v@) =~= Seq::<Seq<char>>::empty());
                v
            },
        };
        let git_ignore = match compile_rules(&lines, false) {
            Ok(g) => g,
            Err(e) => {
                return Err(e);
            },
        };
        let rules = match read_rules(config) {
            Ok(r) => r,
            Err(e) => {
                return Err(e);
            },
        };
        Ok(NovFilter { root: root.to_owned(), git_ignore, rules })
    }

    pub fn root_path(&self) -> (r: &String)
        ensures
            r@ == self.root(),
    {
        &self.root
    }

    /// Classifies `path`, which must lie at or below the root, and is a
    /// directory where `is_dir` says so. A path outside the root is an I/O
    /// failure. For a path without a backslash the decision is exactly
    /// `decision`; for any other it is one of the four all the same.
    pub fn check_decision(&self, path: &str, is_dir: bool) -> (r: Result<FilterDecision, VaultError>)
        ensures
            r is Ok <==> relative(path@, self.root()) is Some,
            r matches Ok(d) ==> {
                let rel = relative(path@, self.root())->0;
                !rel.contains('\\') ==> d == self.decision(rel, is_dir)
            },
            r matches Err(e) ==> e == VaultError::IoError,
    {
        match strip_root(path, self.root.as_str()) {
            None => Err(VaultError::IoError),
            Some(rel) => {
                let delete_hit = match &self.rules.delete {
                    Some(g) => rules_match(g, rel.as_str(), is_dir),
                    None => false,
                };
                let unsecured_hit = match &self.rules.unsecured {
                    Some(g) => rules_match(g, rel.as_str(), is_dir),
                    None => false,
                };
                let ignored = rules_match(&self.git_ignore, rel.as_str(), is_dir);
                Ok(decision_for(delete_hit, unsecured_hit, ignored, self.rules.default_policy))
            },
        }
    }
}

} // verus!
