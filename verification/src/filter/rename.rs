//! Ordered rewriting of member names by regular expressions.

use crate::error::{other, Error, ErrorView, Result};
use crate::filter::regexes;
use crate::filter::regexes::{compile, Expression};
use crate::util::pathnorm;
use crate::util::pathnorm::normalize_member_path;
use crate::util::text;
use crate::util::text::{
    chars_of, concat2, concat3, copy_str, find_char, from_pos, same_text, string_of, up_to,
};
use vstd::hash_map::StringHashMap;
use vstd::prelude::*;

verus! {

/// One rule: what the expression matches is replaced.
///
/// The replacement may name groups of the expression (`$1`, `$name`, `${name}`).
#[derive(Debug)]
pub struct RenameRule {
    pub pattern: Expression,
    pub replacement: String,
}

/// The contents of a rule.
#[verifier::ext_equal]
pub struct RenameView {
    pub pattern: Seq<char>,
    pub replacement: Seq<char>,
}

impl View for RenameRule {
    type V = RenameView;

    open spec fn view(&self) -> RenameView {
        RenameView { pattern: self.pattern@, replacement: self.replacement@ }
    }
}

impl RenameView {
    /// What the rule makes of a name.
    pub open spec fn apply(self, name: Seq<char>) -> Seq<char> {
        regexes::regex_replace_all(self.pattern, name, self.replacement)
    }

    /// Whether the rule matches a name.
    pub open spec fn matches(self, name: Seq<char>) -> bool {
        regexes::regex_says(self.pattern, name)
    }
}

/// The rule for an expression and a replacement, or why the expression does not compile.
pub open spec fn rename_rule(pattern: Seq<char>, replacement: Seq<char>) -> std::result::Result<
    RenameView,
    ErrorView,
> {
    if regexes::regex_fault(pattern) is None {
        Ok(RenameView { pattern, replacement })
    } else {
        Err(regexes::regex_error(pattern))
    }
}

/// The rule that `PATTERN=REPLACEMENT` writes, or why it writes none.
pub open spec fn rename_pair(spec_text: Seq<char>) -> std::result::Result<RenameView, ErrorView> {
    let i = text::find(spec_text, '=');
    if i >= spec_text.len() {
        Err(ErrorView::Other("rename rule must be PATTERN=REPL, got: "@ + spec_text))
    } else if i == 0 {
        Err(ErrorView::Other("rename pattern must not be empty"@))
    } else {
        rename_rule(spec_text.take(i), spec_text.skip(i + 1))
    }
}

/// What `r` says of a rule.
pub open spec fn rule_result(
    r: Result<RenameRule>,
    wanted: std::result::Result<RenameView, ErrorView>,
) -> bool {
    match r {
        Ok(x) => wanted == Ok::<RenameView, ErrorView>(x@),
        Err(e) => wanted == Err::<RenameView, ErrorView>(e@),
    }
}

impl Clone for RenameRule {
    fn clone(&self) -> (r: Self)
        ensures
            r@ == self@,
    {
        RenameRule { pattern: self.pattern.clone(), replacement: self.replacement.clone() }
    }
}

impl RenameRule {
    /// A rule for an expression and a replacement.
    pub fn new(pattern: &str, replacement: &str) -> (r: Result<Self>)
        ensures
            rule_result(r, rename_rule(pattern@, replacement@)),
    {
        match compile(pattern) {
            Ok(re) => Ok(RenameRule { pattern: re, replacement: copy_str(replacement) }),
            Err(e) => Err(e),
        }
    }

    /// Reads `PATTERN=REPLACEMENT`; the first `=` separates the two.
    pub fn parse_pair(spec_text: &str) -> (r: Result<Self>)
        ensures
            rule_result(r, rename_pair(spec_text@)),
    {
        let chars = chars_of(spec_text);
        let i: usize = find_char(chars.as_slice(), '=');
        if i >= chars.len() {
            return Err(Error::Other(concat2("rename rule must be PATTERN=REPL, got: ", spec_text)));
        }
        if i == 0 {
            return Err(other("rename pattern must not be empty"));
        }
        let pattern = string_of(up_to(chars.as_slice(), i));
        let replacement = string_of(from_pos(chars.as_slice(), i + 1));
        RenameRule::new(pattern.as_str(), replacement.as_str())
    }

    /// What the rule makes of a name; a name that it does not match stays as it is.
    pub fn apply(&self, name: &str) -> (r: String)
        ensures
            r@ == self@.apply(name@),
            !self@.matches(name@) ==> r@ == name@,
    {
        self.pattern.replace_all(name, self.replacement.as_str())
    }
}

/// What several rules make of a name, one after the other.
pub open spec fn apply_all(rules: Seq<RenameView>, name: Seq<char>) -> Seq<char>
    decreases rules.len(),
{
    if rules.len() == 0 {
        name
    } else {
        rules.last().apply(apply_all(rules.drop_last(), name))
    }
}

/// The new name of a member.
pub open spec fn renamed(rules: Seq<RenameView>, path: Seq<char>) -> Seq<char> {
    pathnorm::normalized(apply_all(rules, pathnorm::normalized(path)))
}

/// The names mapped to their new names, or the first error: a new name that is empty, or two
/// names that would become one.
pub open spec fn rename_map(rules: Seq<RenameView>, names: Seq<Seq<char>>) -> std::result::Result<
    Map<Seq<char>, Seq<char>>,
    ErrorView,
>
    decreases names.len(),
{
    if names.len() == 0 {
        Ok(Map::empty())
    } else {
        let from = pathnorm::normalized(names.last());
        let to = renamed(rules, from);
        match rename_map(rules, names.drop_last()) {
            Err(e) => Err(e),
            Ok(m) => if to.len() == 0 {
                Err(ErrorView::Other("rename of '"@ + from + "' produced empty path"@))
            } else if exists|p: Seq<char>| #[trigger] m.contains_key(p) && m[p] == to && p != from {
                Err(ErrorView::NameCollision(to))
            } else {
                Ok(m.insert(from, to))
            },
        }
    }
}

proof fn lemma_rename_error(rules: Seq<RenameView>, names: Seq<Seq<char>>, n: int)
    requires
        0 <= n <= names.len(),
        rename_map(rules, names.take(n)) is Err,
    ensures
        rename_map(rules, names) == rename_map(rules, names.take(n)),
    decreases names.len(),
{
    if n < names.len() {
        assert(names.drop_last().take(n) =~= names.take(n));
        lemma_rename_error(rules, names.drop_last(), n);
    } else {
        assert(names.take(n) =~= names);
    }
}

/// The texts that a map of strings holds.
pub open spec fn map_texts(m: Map<Seq<char>, String>) -> Map<Seq<char>, Seq<char>> {
    m.map_values(|s: String| s@)
}

/// Rules that are applied in order.
#[derive(Debug)]
pub struct NameTransformer {
    rules: Vec<RenameRule>,
}

spec fn rename_views(v: Seq<RenameRule>) -> Seq<RenameView> {
    v.map_values(|r: RenameRule| r@)
}

impl View for NameTransformer {
    type V = Seq<RenameView>;

    closed spec fn view(&self) -> Seq<RenameView> {
        rename_views(self.rules@)
    }
}

/// The rules that several `PATTERN=REPLACEMENT` texts write, or the first error.
pub open spec fn rename_pairs(specs: Seq<Seq<char>>) -> std::result::Result<
    Seq<RenameView>,
    ErrorView,
>
    decreases specs.len(),
{
    if specs.len() == 0 {
        Ok(Seq::empty())
    } else {
        match rename_pairs(specs.drop_last()) {
            Err(e) => Err(e),
            Ok(v) => match rename_pair(specs.last()) {
                Ok(x) => Ok(v.push(x)),
                Err(e) => Err(e),
            },
        }
    }
}

proof fn lemma_pairs_error(specs: Seq<Seq<char>>, n: int)
    requires
        0 <= n <= specs.len(),
        rename_pairs(specs.take(n)) is Err,
    ensures
        rename_pairs(specs) == rename_pairs(specs.take(n)),
    decreases specs.len(),
{
    if n < specs.len() {
        assert(specs.drop_last().take(n) =~= specs.take(n));
        lemma_pairs_error(specs.drop_last(), n);
    } else {
        assert(specs.take(n) =~= specs);
    }
}

impl Clone for NameTransformer {
    fn clone(&self) -> (r: Self)
        ensures
            r@ == self@,
    {
        let mut rules: Vec<RenameRule> = Vec::new();
        let mut i: usize = 0;
        while i < self.rules.len()
            invariant
                i <= self.rules.len(),
                rename_views(rules@) == rename_views(self.rules@).take(i as int),
            decreases self.rules.len() - i,
        {
            let ghost before = rules@;
            rules.push(self.rules[i].clone());
            assert(rename_views(rules@) =~= rename_views(before).push(self.rules@[i as int]@));
            i += 1;
            assert(rename_views(rules@) =~= rename_views(self.rules@).take(i as int));
        }
        assert(rename_views(self.rules@).take(i as int) =~= rename_views(self.rules@));
        NameTransformer { rules }
    }
}

impl Default for NameTransformer {
    fn default() -> (r: Self)
        ensures
            r@ == Seq::<RenameView>::empty(),
    {
        let rules: Vec<RenameRule> = Vec::new();
        assert(rename_views(rules@) =~= Seq::<RenameView>::empty());
        NameTransformer { rules }
    }
}

impl NameTransformer {
    /// No rules: every name stays as it is.
    pub fn new() -> (r: Self)
        ensures
            r@ == Seq::<RenameView>::empty(),
    {
        NameTransformer::default()
    }

    /// Adds a rule behind the others.
    pub fn push(&mut self, rule: RenameRule)
        ensures
            final(self)@ == old(self)@.push(rule@),
    {
        let ghost before = self.rules@;
        self.rules.push(rule);
        assert(rename_views(self.rules@) =~= rename_views(before).push(rule@));
    }

    /// Adds a rule for an expression and a replacement.
    pub fn add(&mut self, pattern: &str, replacement: &str) -> (r: Result<()>)
        ensures
            match r {
                Ok(_) => rename_rule(pattern@, replacement@) is Ok && final(self)@ == old(
                    self,
                )@.push(rename_rule(pattern@, replacement@)->Ok_0),
                Err(e) => rename_rule(pattern@, replacement@) == Err::<RenameView, ErrorView>(e@)
                    && final(self)@ == old(self)@,
            },
    {
        match RenameRule::new(pattern, replacement) {
            Ok(rule) => {
                self.push(rule);
                Ok(())
            },
            Err(e) => Err(e),
        }
    }

    /// The rules that several `PATTERN=REPLACEMENT` texts write.
    pub fn from_pairs(specs: &[String]) -> (r: Result<Self>)
        ensures
            match r {
                Ok(t) => rename_pairs(text::texts(specs@)) == Ok::<Seq<RenameView>, ErrorView>(t@),
                Err(e) => rename_pairs(text::texts(specs@)) == Err::<Seq<RenameView>, ErrorView>(
                    e@,
                ),
            },
    {
        let ghost all = text::texts(specs@);
        let mut t = NameTransformer::new();
        let mut i: usize = 0;
        assert(all.take(0) =~= Seq::<Seq<char>>::empty());
        while i < specs.len()
            invariant
                i <= specs.len(),
                all == text::texts(specs@),
                rename_pairs(all.take(i as int)) == Ok::<Seq<RenameView>, ErrorView>(t@),
            decreases specs.len() - i,
        {
            assert(all.take(i + 1).drop_last() =~= all.take(i as int));
            assert(all.take(i + 1).last() == specs@[i as int]@);
            match RenameRule::parse_pair(specs[i].as_str()) {
                Ok(rule) => {
                    t.push(rule);
                },
                Err(e) => {
                    proof {
                        lemma_pairs_error(all, i + 1);
                    }
                    return Err(e);
                },
            }
            i += 1;
        }
        assert(all.take(i as int) =~= all);
        Ok(t)
    }

    /// Whether there are no rules.
    pub fn is_empty(&self) -> (r: bool)
        ensures
            r == (self@.len() == 0),
    {
        self.rules.len() == 0
    }

    /// The new name of a member: all rules in order, applied to the normalized path. A path that
    /// no rule matches is only normalized.
    pub fn transform(&self, path: &str) -> (r: String)
        ensures
            r@ == renamed(self@, path@),
            (forall|i: int|
                0 <= i < self@.len() ==> !(#[trigger] self@[i]).matches(
                    pathnorm::normalized(path@),
                )) ==> r@ == pathnorm::normalized(path@),
    {
        let ghost rules = rename_views(self.rules@);
        let ghost start = pathnorm::normalized(path@);
        let mut name = normalize_member_path(path);
        let mut i: usize = 0;
        assert(rules.take(0) =~= Seq::<RenameView>::empty());
        while i < self.rules.len()
            invariant
                i <= self.rules.len(),
                rules == rename_views(self.rules@),
                name@ == apply_all(rules.take(i as int), start),
                (forall|k: int| 0 <= k < rules.len() ==> !(#[trigger] rules[k]).matches(start))
                    ==> name@ == start,
            decreases self.rules.len() - i,
        {
            assert(rules.take(i + 1).drop_last() =~= rules.take(i as int));
            assert(rules[i as int] == self.rules@[i as int]@);
            name = self.rules[i].apply(name.as_str());
            i += 1;
        }
        assert(rules.take(i as int) =~= rules);
        proof {
            pathnorm::law_normalize_twice(path@);
        }
        normalize_member_path(name.as_str())
    }

    /// The new names of many members, by their normalized names; fails where a new name is empty
    /// or two members would get the same.
    pub fn transform_all(&self, names: &[String]) -> (r: Result<StringHashMap<String>>)
        ensures
            match r {
                Ok(m) => rename_map(self@, text::texts(names@)) == Ok::<
                    Map<Seq<char>, Seq<char>>,
                    ErrorView,
                >(map_texts(m@)),
                Err(e) => rename_map(self@, text::texts(names@)) == Err::<
                    Map<Seq<char>, Seq<char>>,
                    ErrorView,
                >(e@),
            },
    {
        let ghost all = text::texts(names@);
        let mut map: StringHashMap<String> = StringHashMap::new();
        let mut inverse: StringHashMap<String> = StringHashMap::new();
        let mut i: usize = 0;
        assert(all.take(0) =~= Seq::<Seq<char>>::empty());
        assert(map_texts(map@) =~= Map::<Seq<char>, Seq<char>>::empty());
        while i < names.len()
            invariant
                i <= names.len(),
                all == text::texts(names@),
                rename_map(self@, all.take(i as int)) == Ok::<Map<Seq<char>, Seq<char>>, ErrorView>(
                    map_texts(map@),
                ),
                forall|d: Seq<char>| #[trigger]
                    inverse@.contains_key(d) ==> map@.contains_key(inverse@[d]@)
                        && map@[inverse@[d]@]@ == d,
                forall|p: Seq<char>| #[trigger]
                    map@.contains_key(p) ==> inverse@.contains_key(map@[p]@)
                        && inverse@[map@[p]@]@ == p,
            decreases names.len() - i,
        {
            let ghost before = map_texts(map@);
            assert(all.take(i + 1).drop_last() =~= all.take(i as int));
            assert(all.take(i + 1).last() == names@[i as int]@);
            let from = normalize_member_path(names[i].as_str());
            let to = self.transform(from.as_str());
            if chars_of(to.as_str()).len() == 0 {
                proof {
                    lemma_rename_error(self@, all, i + 1);
                }
                return Err(
                    Error::Other(
                        concat3("rename of '", from.as_str(), "' produced empty path"),
                    ),
                );
            }
            let clash = match inverse.get(to.as_str()) {
                Some(prev) => !same_text(prev.as_str(), from.as_str()),
                None => false,
            };
            assert forall|p: Seq<char>|
                #[trigger] before.contains_key(p) && before[p] == to@ && p != from@ implies clash by {
                assert(map@.contains_key(p));
            }
            if clash {
                assert(before.contains_key(inverse@[to@]@));
                proof {
                    lemma_rename_error(self@, all, i + 1);
                }
                return Err(Error::NameCollision(to));
            }
            let ghost old_map = map@;
            let ghost old_inverse = inverse@;
            inverse.insert(copy_str(to.as_str()), copy_str(from.as_str()));
            map.insert(copy_str(from.as_str()), to);
            assert(map_texts(map@) =~= before.insert(from@, to@));
            proof {
                if old_map.contains_key(from@) {
                    lemma_rename_fixed(self@, all.take(i as int), from@);
                    assert(old_map[from@]@ == before[from@]);
                }
            }
            i += 1;
        }
        assert(all.take(i as int) =~= all);
        Ok(map)
    }
}

/// A mapped name is mapped to its new name.
proof fn lemma_rename_fixed(rules: Seq<RenameView>, names: Seq<Seq<char>>, p: Seq<char>)
    requires
        rename_map(rules, names) is Ok,
        rename_map(rules, names)->Ok_0.contains_key(p),
    ensures
        rename_map(rules, names)->Ok_0[p] == renamed(rules, p),
        rename_map(rules, names)->Ok_0[p].len() > 0,
    decreases names.len(),
{
    if names.len() > 0 {
        let from = pathnorm::normalized(names.last());
        if p != from {
            lemma_rename_fixed(rules, names.drop_last(), p);
        }
    }
}

/// Law: where renaming succeeds, every name gets its new name, no new name is empty, and no two
/// members get the same.
pub proof fn law_renaming_is_injective(rules: Seq<RenameView>, names: Seq<Seq<char>>)
    requires
        rename_map(rules, names) is Ok,
    ensures
        forall|i: int|
            0 <= i < names.len() ==> rename_map(rules, names)->Ok_0.contains_key(
                pathnorm::normalized(#[trigger] names[i]),
            ),
        forall|p: Seq<char>| #[trigger]
            rename_map(rules, names)->Ok_0.contains_key(p) ==> rename_map(rules, names)->Ok_0[p]
                == renamed(rules, p) && renamed(rules, p).len() > 0,
        forall|p: Seq<char>, q: Seq<char>|
            #![trigger rename_map(rules, names)->Ok_0.contains_key(p), rename_map(rules, names)->Ok_0.contains_key(q)]
            rename_map(rules, names)->Ok_0.contains_key(p) && rename_map(
                rules,
                names,
            )->Ok_0.contains_key(q) && p != q ==> rename_map(rules, names)->Ok_0[p]
                != rename_map(rules, names)->Ok_0[q],
    decreases names.len(),
{
    let m = rename_map(rules, names)->Ok_0;
    assert forall|p: Seq<char>| #[trigger] m.contains_key(p) implies m[p] == renamed(rules, p)
        && renamed(rules, p).len() > 0 by {
        lemma_rename_fixed(rules, names, p);
    }
    if names.len() > 0 {
        let before = names.drop_last();
        let from = pathnorm::normalized(names.last());
        let to = renamed(rules, from);
        law_renaming_is_injective(rules, before);
        let b = rename_map(rules, before)->Ok_0;
        assert(m == b.insert(from, to));
        assert forall|i: int| 0 <= i < names.len() implies m.contains_key(
            pathnorm::normalized(#[trigger] names[i]),
        ) by {
            if i < before.len() {
                assert(before[i] == names[i]);
            }
        }
        assert forall|p: Seq<char>, q: Seq<char>|
            #![trigger m.contains_key(p), m.contains_key(q)]
            m.contains_key(p) && m.contains_key(q) && p != q implies m[p] != m[q] by {
            if p == from {
                assert(b.contains_key(q));
            } else if q == from {
                assert(b.contains_key(p));
            } else {
                assert(b.contains_key(p) && b.contains_key(q));
            }
        }
    }
}

/// Law: without rules a name is only normalized; one rule more is applied to what the others made
/// of the name, and replaces what its expression matches there.
pub proof fn law_rules_are_applied_in_order(
    rules: Seq<RenameView>,
    rule: RenameView,
    path: Seq<char>,
)
    ensures
        renamed(Seq::empty(), path) == pathnorm::normalized(path),
        renamed(seq![rule], path) == pathnorm::normalized(
            regexes::regex_replace_all(rule.pattern, pathnorm::normalized(path), rule.replacement),
        ),
        apply_all(rules.push(rule), path) == regexes::regex_replace_all(
            rule.pattern,
            apply_all(rules, path),
            rule.replacement,
        ),
        renamed(rules, path) == pathnorm::normalized(
            apply_all(rules, pathnorm::normalized(path)),
        ),
{
    let name = pathnorm::normalized(path);
    pathnorm::law_normalize_twice(path);
    assert(apply_all(Seq::<RenameView>::empty(), name) == name);
    assert(seq![rule].drop_last() =~= Seq::<RenameView>::empty());
    assert(apply_all(seq![rule], name) == rule.apply(name));
    assert(rules.push(rule).drop_last() =~= rules);
}

/// Law: a text with `=` in it writes the rule that replaces what the part in front of the first `=`
/// matches by the part behind it, unless the expression does not compile; a text without `=`, or
/// with nothing in front of it, writes none.
pub proof fn law_pair_is_split_at_first_equals(pattern: Seq<char>, replacement: Seq<char>)
    requires
        !pattern.contains('='),
    ensures
        ({
            let r = rename_pair(pattern.push('=') + replacement);
            &&& r is Ok <==> pattern.len() > 0 && regexes::regex_fault(pattern) is None
            &&& r is Ok ==> r->Ok_0.pattern == pattern && r->Ok_0.replacement == replacement
            &&& rename_pair(pattern) is Err
        }),
{
    let whole = pattern.push('=') + replacement;
    let i = text::find(whole, '=');
    text::lemma_find(whole, '=');
    text::lemma_find(pattern, '=');
    assert(whole[pattern.len() as int] == '=');
    assert(whole.contains('='));
    if i < pattern.len() {
        assert(pattern[i] == whole[i]);
        assert(pattern.contains('='));
    }
    assert(whole.take(i) =~= pattern);
    assert(whole.skip(i + 1) =~= replacement);
}

/// Every name has a new name, and different names have different ones.
pub open spec fn renames_apart(rules: Seq<RenameView>, names: Seq<Seq<char>>) -> bool {
    &&& forall|i: int| 0 <= i < names.len() ==> renamed(rules, #[trigger] names[i]).len() > 0
    &&& forall|i: int, j: int|
        0 <= i < names.len() && 0 <= j < names.len() && pathnorm::normalized(#[trigger] names[i])
            != pathnorm::normalized(#[trigger] names[j]) ==> renamed(rules, names[i]) != renamed(
            rules,
            names[j],
        )
}

proof fn lemma_renamed_normal(rules: Seq<RenameView>, path: Seq<char>)
    ensures
        renamed(rules, pathnorm::normalized(path)) == renamed(rules, path),
{
    pathnorm::law_normalize_twice(path);
}

/// Every mapped name comes from the list.
proof fn lemma_mapped_is_listed(rules: Seq<RenameView>, names: Seq<Seq<char>>, p: Seq<char>)
    requires
        rename_map(rules, names) is Ok,
        rename_map(rules, names)->Ok_0.contains_key(p),
    ensures
        exists|i: int| 0 <= i < names.len() && pathnorm::normalized(#[trigger] names[i]) == p,
    decreases names.len(),
{
    if names.len() > 0 {
        let before = names.drop_last();
        if p == pathnorm::normalized(names.last()) {
            assert(pathnorm::normalized(names[names.len() - 1]) == p);
        } else {
            lemma_mapped_is_listed(rules, before, p);
            let i = choose|i: int|
                0 <= i < before.len() && pathnorm::normalized(#[trigger] before[i]) == p;
            assert(pathnorm::normalized(names[i]) == p);
        }
    }
}

/// Law: renaming succeeds exactly when no new name is empty and no two members would get the same
/// name.
pub proof fn law_renaming_succeeds_when_names_stay_apart(
    rules: Seq<RenameView>,
    names: Seq<Seq<char>>,
)
    ensures
        rename_map(rules, names) is Ok <==> renames_apart(rules, names),
    decreases names.len(),
{
    if rename_map(rules, names) is Ok {
        law_renaming_is_injective(rules, names);
        let m = rename_map(rules, names)->Ok_0;
        assert forall|i: int| 0 <= i < names.len() implies renamed(
            rules,
            #[trigger] names[i],
        ).len() > 0 by {
            lemma_renamed_normal(rules, names[i]);
            assert(m.contains_key(pathnorm::normalized(names[i])));
        }
        assert forall|i: int, j: int|
            0 <= i < names.len() && 0 <= j < names.len() && pathnorm::normalized(
                #[trigger] names[i],
            ) != pathnorm::normalized(#[trigger] names[j]) implies renamed(rules, names[i])
            != renamed(rules, names[j]) by {
            lemma_renamed_normal(rules, names[i]);
            lemma_renamed_normal(rules, names[j]);
            assert(m.contains_key(pathnorm::normalized(names[i])));
            assert(m.contains_key(pathnorm::normalized(names[j])));
        }
    }
    if renames_apart(rules, names) && names.len() > 0 {
        let before = names.drop_last();
        let last = names.last();
        let from = pathnorm::normalized(last);
        assert forall|i: int| 0 <= i < before.len() implies renamed(
            rules,
            #[trigger] before[i],
        ).len() > 0 by {
            assert(before[i] == names[i]);
        }
        assert forall|i: int, j: int|
            0 <= i < before.len() && 0 <= j < before.len() && pathnorm::normalized(
                #[trigger] before[i],
            ) != pathnorm::normalized(#[trigger] before[j]) implies renamed(rules, before[i])
            != renamed(rules, before[j]) by {
            assert(before[i] == names[i] && before[j] == names[j]);
        }
        law_renaming_succeeds_when_names_stay_apart(rules, before);
        lemma_renamed_normal(rules, last);
        assert(names[names.len() - 1] == last);
        let m = rename_map(rules, before)->Ok_0;
        let to = renamed(rules, from);
        if exists|p: Seq<char>| #[trigger] m.contains_key(p) && m[p] == to && p != from {
            let p = choose|p: Seq<char>| #[trigger] m.contains_key(p) && m[p] == to && p != from;
            law_renaming_is_injective(rules, before);
            lemma_mapped_is_listed(rules, before, p);
            let i = choose|i: int|
                0 <= i < before.len() && pathnorm::normalized(#[trigger] before[i]) == p;
            lemma_renamed_normal(rules, before[i]);
            assert(names[i] == before[i]);
        }
    }
}

/// Law: where all names but the last stay apart, the last is refused if its new name is empty, as
/// such, and if an earlier member has its new name, as a collision of that name.
pub proof fn law_mistakes_of_renaming(
    rules: Seq<RenameView>,
    names: Seq<Seq<char>>,
    last: Seq<char>,
    i: int,
)
    requires
        renames_apart(rules, names),
    ensures
        renamed(rules, last).len() == 0 ==> rename_map(rules, names.push(last)) == Err::<
            Map<Seq<char>, Seq<char>>,
            ErrorView,
        >(
            ErrorView::Other(
                "rename of '"@ + pathnorm::normalized(last) + "' produced empty path"@,
            ),
        ),
        renamed(rules, last).len() > 0 && 0 <= i < names.len() && pathnorm::normalized(names[i])
            != pathnorm::normalized(last) && renamed(rules, names[i]) == renamed(rules, last)
            ==> rename_map(rules, names.push(last)) == Err::<Map<Seq<char>, Seq<char>>, ErrorView>(
            ErrorView::NameCollision(renamed(rules, last)),
        ),
{
    let all = names.push(last);
    assert(all.drop_last() =~= names);
    law_renaming_succeeds_when_names_stay_apart(rules, names);
    law_renaming_is_injective(rules, names);
    lemma_renamed_normal(rules, last);
    let m = rename_map(rules, names)->Ok_0;
    if 0 <= i < names.len() {
        let p = pathnorm::normalized(names[i]);
        lemma_renamed_normal(rules, names[i]);
        assert(m.contains_key(p));
        assert(m[p] == renamed(rules, p));
    }
}

} // verus!
