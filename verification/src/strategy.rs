//! The settings that a package is built with, and the rules that decide them.
use crate::manifest::{RuleView, StrategyRule, StrategyScope};
use crate::table::{
    list_under, lookup, lookup_after_merge, merged, merged_stays_ordered, no_empty_list, ordered,
    Table,
};
use crate::target::{BuildType, CxxStdlib, VCRuntime};
use crate::text::{cat3, copy_list, list_has, lower, to_lowercase, views};
use vstd::prelude::*;
use vstd::string::*;
use vstd::utf8::is_ascii_chars;

verus! {

broadcast use vstd::string::group_string_axioms;

/// The settings of one build. An empty `cxx_std` leaves the standard to the package.
#[derive(Debug)]
pub struct EffectiveConfig {
    pub build_type: BuildType,
    pub shared: bool,
    pub vc_runtime: VCRuntime,
    pub cxx_std: String,
    pub cxx_stdlib: CxxStdlib,
    pub lto: bool,
    pub flags: Vec<String>,
    pub cmake_options: Table<String>,
}

/// The settings as texts.
#[verifier::ext_equal]
pub struct ConfigView {
    pub build_type: BuildType,
    pub shared: bool,
    pub vc_runtime: VCRuntime,
    pub cxx_std: Seq<char>,
    pub cxx_stdlib: CxxStdlib,
    pub lto: bool,
    pub flags: Seq<Seq<char>>,
    pub cmake_options: Seq<(Seq<char>, Seq<char>)>,
}

impl View for EffectiveConfig {
    type V = ConfigView;

    open spec fn view(&self) -> ConfigView {
        ConfigView {
            build_type: self.build_type,
            shared: self.shared,
            vc_runtime: self.vc_runtime,
            cxx_std: self.cxx_std@,
            cxx_stdlib: self.cxx_stdlib,
            lto: self.lto,
            flags: views(self.flags@),
            cmake_options: self.cmake_options.texts(),
        }
    }
}

/// The settings of a package for which nothing is said.
pub open spec fn default_config() -> ConfigView {
    ConfigView {
        build_type: BuildType::Release,
        shared: false,
        vc_runtime: VCRuntime::MultiThreadedDLL,
        cxx_std: Seq::empty(),
        cxx_stdlib: CxxStdlib::PlatformDefault,
        lto: false,
        flags: Seq::empty(),
        cmake_options: Seq::empty(),
    }
}

impl Default for EffectiveConfig {
    fn default() -> (r: Self)
        ensures
            r@ == default_config(),
            r.cmake_options.wf(),
    {
        let r = EffectiveConfig {
            build_type: BuildType::Release,
            shared: false,
            vc_runtime: VCRuntime::MultiThreadedDLL,
            cxx_std: String::new(),
            cxx_stdlib: CxxStdlib::PlatformDefault,
            lto: false,
            flags: Vec::new(),
            cmake_options: Table::new(),
        };
        assert(r@ =~= default_config());
        r
    }
}

impl Clone for EffectiveConfig {
    fn clone(&self) -> (r: Self)
        ensures
            r@ == self@,
            self.cmake_options.wf() ==> r.cmake_options.wf(),
    {
        EffectiveConfig {
            build_type: self.build_type,
            shared: self.shared,
            vc_runtime: self.vc_runtime,
            cxx_std: self.cxx_std.clone(),
            cxx_stdlib: self.cxx_stdlib,
            lto: self.lto,
            flags: copy_list(&self.flags),
            cmake_options: self.cmake_options.copy(),
        }
    }
}

/// `flags` with those of `more` behind them that are not there yet.
pub open spec fn with_flags(flags: Seq<Seq<char>>, more: Seq<Seq<char>>) -> Seq<Seq<char>>
    decreases more.len(),
{
    if more.len() == 0 {
        flags
    } else {
        let so_far = with_flags(flags, more.drop_last());
        if so_far.contains(more.last()) {
            so_far
        } else {
            so_far.push(more.last())
        }
    }
}

/// Puts those of `more` behind `v` that are not there yet.
pub fn push_missing(v: &mut Vec<String>, more: &[String])
    ensures
        views(final(v)@) == with_flags(views(old(v)@), views(more@)),
{
    let ghost start = views(v@);
    let ghost all = views(more@);
    let mut i: usize = 0;
    assert(all.take(0) =~= Seq::<Seq<char>>::empty());
    while i < more.len()
        invariant
            i <= more@.len(),
            all == views(more@),
            views(v@) == with_flags(start, all.take(i as int)),
        decreases more@.len() - i,
    {
        assert(all.take(i + 1).drop_last() =~= all.take(i as int));
        assert(all.take(i + 1).last() == more@[i as int]@);
        if !list_has(v, more[i].as_str()) {
            let ghost before = views(v@);
            let f = more[i].clone();
            v.push(f);
            assert(views(v@) =~= before.push(more@[i as int]@));
        }
        i = i + 1;
    }
    assert(all.take(i as int) =~= all);
}

/// `given` where it says something, else `kept`.
pub open spec fn or_kept<T>(given: Option<T>, kept: T) -> T {
    match given {
        Some(v) => v,
        None => kept,
    }
}

/// The settings after one rule: what the rule sets replaces what was set, its flags are
/// added, and its CMake options win over options of the same name.
pub open spec fn with_rule(c: ConfigView, r: RuleView) -> ConfigView {
    ConfigView {
        build_type: or_kept(r.build_type, c.build_type),
        shared: or_kept(r.shared, c.shared),
        vc_runtime: or_kept(r.vc_runtime, c.vc_runtime),
        cxx_std: or_kept(r.cxx_std, c.cxx_std),
        cxx_stdlib: or_kept(r.cxx_stdlib, c.cxx_stdlib),
        lto: or_kept(r.lto, c.lto),
        flags: with_flags(c.flags, r.flags),
        cmake_options: merged(c.cmake_options, r.cmake_options),
    }
}

/// The settings after a list of rules, from first to last.
pub open spec fn with_rules(c: ConfigView, rules: Seq<RuleView>) -> ConfigView
    decreases rules.len(),
{
    if rules.len() == 0 {
        c
    } else {
        with_rule(with_rules(c, rules.drop_last()), rules.last())
    }
}

impl EffectiveConfig {
    /// Applies one rule.
    pub fn apply_rule(&mut self, rule: &StrategyRule)
        ensures
            final(self)@ == with_rule(old(self)@, rule@),
            old(self).cmake_options.wf() ==> final(self).cmake_options.wf(),
    {
        if let Some(bt) = rule.build_type {
            self.build_type = bt;
        }
        if let Some(sh) = rule.shared {
            self.shared = sh;
        }
        if let Some(rt) = rule.vc_runtime {
            self.vc_runtime = rt;
        }
        if let Some(std) = &rule.cxx_std {
            self.cxx_std = std.clone();
        }
        if let Some(sl) = rule.cxx_stdlib {
            self.cxx_stdlib = sl;
        }
        if let Some(lto) = rule.lto {
            self.lto = lto;
        }
        self.add_flags(&rule.flags);
        self.cmake_options.merge(&rule.cmake_options);
    }

    /// Adds the flags that are not there yet.
    pub fn add_flags(&mut self, flags: &[String])
        ensures
            final(self)@ == (ConfigView {
                flags: with_flags(old(self)@.flags, views(flags@)),
                ..old(self)@
            }),
            final(self).cmake_options == old(self).cmake_options,
    {
        push_missing(&mut self.flags, flags);
    }
}

// ---------------------------------------------------------------------------
// The rules of a project
// ---------------------------------------------------------------------------

/// Rules as views.
pub open spec fn rule_views(v: Seq<StrategyRule>) -> Seq<RuleView> {
    v.map_values(|r: StrategyRule| r@)
}

/// The rules that hold for every package.
pub open spec fn global_rules_of(rules: Seq<RuleView>) -> Seq<RuleView> {
    rules.filter(|r: RuleView| r.scope == StrategyScope::Global)
}

/// The rules of one scope for one package.
pub open spec fn scoped_rules_of(
    rules: Seq<RuleView>,
    scope: StrategyScope,
    package: Seq<char>,
) -> Seq<RuleView> {
    rules.filter(|r: RuleView| r.scope == scope && r.package == Some(package))
}

/// A project's rules, sorted by what they hold for.
#[derive(Debug)]
pub struct StrategyEngine {
    pub global_rules: Vec<StrategyRule>,
    pub cascade_rules: Table<Vec<StrategyRule>>,
    pub exact_rules: Table<Vec<StrategyRule>>,
}

impl StrategyEngine {
    /// The rules for every package.
    pub open spec fn globals(&self) -> Seq<RuleView> {
        rule_views(self.global_rules@)
    }

    /// The rules for a package and what it depends on.
    pub open spec fn cascades(&self, package: Seq<char>) -> Seq<RuleView> {
        rule_views(list_under(self.cascade_rules.pairs(), package))
    }

    /// The rules for a package alone.
    pub open spec fn exacts(&self, package: Seq<char>) -> Seq<RuleView> {
        rule_views(list_under(self.exact_rules.pairs(), package))
    }

    /// Whether the engine holds `rules`, each where it belongs, and no package that has none.
    pub open spec fn holds(&self, rules: Seq<RuleView>) -> bool {
        &&& self.globals() == global_rules_of(rules)
        &&& no_empty_list(self.cascade_rules.pairs())
        &&& no_empty_list(self.exact_rules.pairs())
        &&& forall|p: Seq<char>|
            #![trigger self.cascades(p)]
            self.cascades(p) == scoped_rules_of(rules, StrategyScope::Cascade, p)
        &&& forall|p: Seq<char>|
            #![trigger self.exacts(p)]
            self.exacts(p) == scoped_rules_of(rules, StrategyScope::Exact, p)
    }

    /// The rules of the dependents, in their order.
    pub open spec fn inherited(&self, dependents: Seq<Seq<char>>) -> Seq<RuleView>
        decreases dependents.len(),
    {
        if dependents.len() == 0 {
            Seq::empty()
        } else {
            self.inherited(dependents.drop_last()) + self.cascades(dependents.last())
        }
    }

    /// Every rule for `package`, the weakest first: global rules, cascading rules of the
    /// packages that depend on it, its own cascading rules, rules for it alone.
    pub open spec fn rules_for(&self, package: Seq<char>, dependents: Seq<Seq<char>>) -> Seq<
        RuleView,
    > {
        self.globals() + self.inherited(dependents) + self.cascades(package) + self.exacts(package)
    }
}

impl Default for StrategyEngine {
    fn default() -> (r: Self)
        ensures
            r.holds(Seq::empty()),
            r.cascade_rules.wf(),
            r.exact_rules.wf(),
    {
        let r = StrategyEngine {
            global_rules: Vec::new(),
            cascade_rules: Table::new(),
            exact_rules: Table::new(),
        };
        let ghost none = Seq::<RuleView>::empty();
        reveal(Seq::filter);
        assert(r.globals() =~= global_rules_of(none));
        assert forall|p: Seq<char>|
            #![trigger r.cascades(p)]
            r.cascades(p) == scoped_rules_of(none, StrategyScope::Cascade, p) by {
            assert(r.cascades(p) =~= scoped_rules_of(none, StrategyScope::Cascade, p));
        }
        assert forall|p: Seq<char>|
            #![trigger r.exacts(p)]
            r.exacts(p) == scoped_rules_of(none, StrategyScope::Exact, p) by {
            assert(r.exacts(p) =~= scoped_rules_of(none, StrategyScope::Exact, p));
        }
        r
    }
}

/// The name of a scope.
pub open spec fn scope_text(s: StrategyScope) -> Seq<char> {
    match s {
        StrategyScope::Exact => "Exact"@,
        StrategyScope::Cascade => "Cascade"@,
        StrategyScope::Global => "Global"@,
    }
}

fn scope_name(s: StrategyScope) -> (r: &'static str)
    ensures
        r@ == scope_text(s),
{
    match s {
        StrategyScope::Exact => "Exact",
        StrategyScope::Cascade => "Cascade",
        StrategyScope::Global => "Global",
    }
}

/// A rule that is neither global nor for a package.
pub open spec fn lacks_package(r: RuleView) -> bool {
    r.scope != StrategyScope::Global && r.package is None
}

/// The message for a rule that lacks a package.
pub open spec fn lacks_package_message(scope: StrategyScope) -> Seq<char> {
    lower(
        "[[strategy]] rule with scope = \""@ + scope_text(scope) + "\" requires a `package` field"@,
    )
}

/// The texts of a list of borrowed strings.
pub open spec fn strs(v: Seq<&str>) -> Seq<Seq<char>> {
    v.map_values(|s: &str| s@)
}

proof fn lemma_filter_push<A>(s: Seq<A>, x: A, f: spec_fn(A) -> bool)
    ensures
        s.push(x).filter(f) == if f(x) {
            s.filter(f).push(x)
        } else {
            s.filter(f)
        },
{
    reveal(Seq::filter);
    assert(s.push(x).drop_last() =~= s);
}

proof fn lemma_with_rules_split(c: ConfigView, a: Seq<RuleView>, b: Seq<RuleView>)
    ensures
        with_rules(c, a + b) == with_rules(with_rules(c, a), b),
    decreases b.len(),
{
    if b.len() == 0 {
        assert(a + b =~= a);
    } else {
        assert((a + b).drop_last() =~= a + b.drop_last());
        lemma_with_rules_split(c, a, b.drop_last());
    }
}

fn apply_all(config: &mut EffectiveConfig, rules: &Vec<StrategyRule>)
    ensures
        final(config)@ == with_rules(old(config)@, rule_views(rules@)),
        old(config).cmake_options.wf() ==> final(config).cmake_options.wf(),
{
    let ghost start = config@;
    let ghost sound = config.cmake_options.wf();
    let ghost all = rule_views(rules@);
    let mut i: usize = 0;
    assert(all.take(0) =~= Seq::<RuleView>::empty());
    while i < rules.len()
        invariant
            i <= rules@.len(),
            all == rule_views(rules@),
            config@ == with_rules(start, all.take(i as int)),
            sound ==> config.cmake_options.wf(),
        decreases rules@.len() - i,
    {
        assert(all.take(i + 1).drop_last() =~= all.take(i as int));
        assert(all.take(i + 1).last() == rules@[i as int]@);
        config.apply_rule(&rules[i]);
        i = i + 1;
    }
    assert(all.take(i as int) =~= all);
}

impl StrategyEngine {
    /// Sorts a project's rules. A rule of the other scopes without a package holds for none.
    pub fn new(rules: &[StrategyRule]) -> (r: Self)
        ensures
            r.holds(rule_views(rules@)),
            r.cascade_rules.wf(),
            r.exact_rules.wf(),
    {
        let mut engine = StrategyEngine::default();
        let ghost all = rule_views(rules@);
        let mut i: usize = 0;
        assert(all.take(0) =~= Seq::<RuleView>::empty());
        while i < rules.len()
            invariant
                i <= rules@.len(),
                all == rule_views(rules@),
                engine.holds(all.take(i as int)),
                engine.cascade_rules.wf(),
                engine.exact_rules.wf(),
            decreases rules@.len() - i,
        {
            let ghost before = engine;
            let ghost seen = all.take(i as int);
            let ghost rule = rules@[i as int]@;
            assert(all.take(i + 1) =~= seen.push(rule));
            let copy = rules[i].clone();
            let ghost added = copy;
            match rules[i].scope {
                StrategyScope::Global => {
                    engine.global_rules.push(copy);
                    assert(engine.globals() =~= before.globals().push(rule));
                },
                StrategyScope::Cascade => {
                    if let Some(pkg) = &rules[i].package {
                        engine.cascade_rules.push_under(pkg.as_str(), copy);
                    }
                },
                StrategyScope::Exact => {
                    if let Some(pkg) = &rules[i].package {
                        engine.exact_rules.push_under(pkg.as_str(), copy);
                    }
                },
            }
            proof {
                lemma_filter_push(seen, rule, |r: RuleView| r.scope == StrategyScope::Global);
                assert forall|p: Seq<char>|
                    #![trigger engine.cascades(p)]
                    engine.cascades(p) == scoped_rules_of(
                        all.take(i + 1),
                        StrategyScope::Cascade,
                        p,
                    ) by {
                    lemma_filter_push(
                        seen,
                        rule,
                        |r: RuleView| r.scope == StrategyScope::Cascade && r.package == Some(p),
                    );
                    assert(before.cascades(p) == scoped_rules_of(seen, StrategyScope::Cascade, p));
                    let was = list_under(before.cascade_rules.pairs(), p);
                    let now = list_under(engine.cascade_rules.pairs(), p);
                    if rule.scope == StrategyScope::Cascade && rule.package == Some(p) {
                        assert(now == was.push(added));
                        assert(rule_views(now) =~= rule_views(was).push(rule));
                    } else {
                        assert(now == was);
                    }
                }
                assert forall|p: Seq<char>|
                    #![trigger engine.exacts(p)]
                    engine.exacts(p) == scoped_rules_of(all.take(i + 1), StrategyScope::Exact, p) by {
                    lemma_filter_push(
                        seen,
                        rule,
                        |r: RuleView| r.scope == StrategyScope::Exact && r.package == Some(p),
                    );
                    assert(before.exacts(p) == scoped_rules_of(seen, StrategyScope::Exact, p));
                    let was = list_under(before.exact_rules.pairs(), p);
                    let now = list_under(engine.exact_rules.pairs(), p);
                    if rule.scope == StrategyScope::Exact && rule.package == Some(p) {
                        assert(now == was.push(added));
                        assert(rule_views(now) =~= rule_views(was).push(rule));
                    } else {
                        assert(now == was);
                    }
                }
            }
            i = i + 1;
        }
        assert(all.take(i as int) =~= all);
        engine
    }

    /// Whether every rule of a narrower scope names a package.
    pub fn validate(rules: &[StrategyRule]) -> (r: Result<(), String>)
        ensures
            match r {
                Ok(_) => forall|i: int|
                    0 <= i < rules@.len() ==> !lacks_package(#[trigger] rules@[i]@),
                Err(m) => exists|i: int|
                    0 <= i < rules@.len() && lacks_package(#[trigger] rules@[i]@) && m@
                        == lacks_package_message(rules@[i].scope) && (forall|j: int|
                        0 <= j < i ==> !lacks_package(#[trigger] rules@[j]@)),
            },
    {
        let mut i: usize = 0;
        while i < rules.len()
            invariant
                i <= rules@.len(),
                forall|j: int| 0 <= j < i ==> !lacks_package(#[trigger] rules@[j]@),
            decreases rules@.len() - i,
        {
            if rules[i].scope != StrategyScope::Global && rules[i].package.is_none() {
                assert(lacks_package(rules@[i as int]@));
                let m = cat3(
                    "[[strategy]] rule with scope = \"",
                    scope_name(rules[i].scope),
                    "\" requires a `package` field",
                );
                return Err(to_lowercase(m.as_str()));
            }
            i = i + 1;
        }
        Ok(())
    }

    /// The settings of `package_name`, which `dependents` depend on: `base`, changed by the
    /// rules that hold for it.
    pub fn resolve_for_node(
        &self,
        package_name: &str,
        dependents: &[&str],
        base: &EffectiveConfig,
    ) -> (r: EffectiveConfig)
        ensures
            r@ == with_rules(base@, self.rules_for(package_name@, strs(dependents@))),
            base.cmake_options.wf() ==> r.cmake_options.wf(),
    {
        let mut resolved = base.clone();
        apply_all(&mut resolved, &self.global_rules);
        let ghost start = resolved@;
        let ghost deps = strs(dependents@);
        let mut i: usize = 0;
        assert(deps.take(0) =~= Seq::<Seq<char>>::empty());
        while i < dependents.len()
            invariant
                i <= dependents@.len(),
                deps == strs(dependents@),
                resolved@ == with_rules(start, self.inherited(deps.take(i as int))),
                base.cmake_options.wf() ==> resolved.cmake_options.wf(),
            decreases dependents@.len() - i,
        {
            assert(deps.take(i + 1).drop_last() =~= deps.take(i as int));
            assert(deps.take(i + 1).last() == dependents@[i as int]@);
            proof {
                lemma_with_rules_split(
                    start,
                    self.inherited(deps.take(i as int)),
                    self.cascades(dependents@[i as int]@),
                );
            }
            match self.cascade_rules.get(dependents[i]) {
                Some(cascades) => {
                    apply_all(&mut resolved, cascades);
                },
                None => {
                    assert(self.cascades(dependents@[i as int]@) =~= Seq::<RuleView>::empty());
                },
            }
            i = i + 1;
        }
        assert(deps.take(i as int) =~= deps);
        match self.cascade_rules.get(package_name) {
            Some(cascades) => {
                apply_all(&mut resolved, cascades);
            },
            None => {
                assert(self.cascades(package_name@) =~= Seq::<RuleView>::empty());
            },
        }
        match self.exact_rules.get(package_name) {
            Some(exacts) => {
                apply_all(&mut resolved, exacts);
            },
            None => {
                assert(self.exacts(package_name@) =~= Seq::<RuleView>::empty());
            },
        }
        proof {
            let g = self.globals();
            let h = self.inherited(deps);
            let c = self.cascades(package_name@);
            let e = self.exacts(package_name@);
            lemma_with_rules_split(base@, g, h);
            lemma_with_rules_split(base@, g + h, c);
            lemma_with_rules_split(base@, g + h + c, e);
        }
        resolved
    }
}

// ---------------------------------------------------------------------------
// Which rule decides
// ---------------------------------------------------------------------------

/// The last value that is given, or `first` where none is.
pub open spec fn last_given<T>(first: T, given: Seq<Option<T>>) -> T
    decreases given.len(),
{
    if given.len() == 0 {
        first
    } else {
        or_kept(given.last(), last_given(first, given.drop_last()))
    }
}

/// What a rule gives for each of its settings.
pub open spec fn given<T>(rules: Seq<RuleView>, f: spec_fn(RuleView) -> Option<T>) -> Seq<
    Option<T>,
> {
    rules.map_values(f)
}

/// Of all rules that set something, the last one decides it.
pub proof fn the_last_rule_decides(c: ConfigView, rules: Seq<RuleView>)
    ensures
        with_rules(c, rules).build_type == last_given(
            c.build_type,
            given(rules, |r: RuleView| r.build_type),
        ),
        with_rules(c, rules).shared == last_given(c.shared, given(rules, |r: RuleView| r.shared)),
        with_rules(c, rules).vc_runtime == last_given(
            c.vc_runtime,
            given(rules, |r: RuleView| r.vc_runtime),
        ),
        with_rules(c, rules).cxx_std == last_given(c.cxx_std, given(rules, |r: RuleView| r.cxx_std)),
        with_rules(c, rules).cxx_stdlib == last_given(
            c.cxx_stdlib,
            given(rules, |r: RuleView| r.cxx_stdlib),
        ),
        with_rules(c, rules).lto == last_given(c.lto, given(rules, |r: RuleView| r.lto)),
    decreases rules.len(),
{
    if rules.len() > 0 {
        let init = rules.drop_last();
        the_last_rule_decides(c, init);
        let b = |r: RuleView| r.build_type;
        let s = |r: RuleView| r.shared;
        let v = |r: RuleView| r.vc_runtime;
        let x = |r: RuleView| r.cxx_std;
        let l = |r: RuleView| r.cxx_stdlib;
        let t = |r: RuleView| r.lto;
        assert(given(rules, b).drop_last() =~= given(init, b));
        assert(given(rules, s).drop_last() =~= given(init, s));
        assert(given(rules, v).drop_last() =~= given(init, v));
        assert(given(rules, x).drop_last() =~= given(init, x));
        assert(given(rules, l).drop_last() =~= given(init, l));
        assert(given(rules, t).drop_last() =~= given(init, t));
    }
}

/// Of all rules that set a CMake option, the last one decides its value.
pub proof fn the_last_rule_decides_an_option(c: ConfigView, rules: Seq<RuleView>, key: Seq<char>)
    requires
        ordered(c.cmake_options),
        forall|i: int| 0 <= i < rules.len() ==> ordered((#[trigger] rules[i]).cmake_options),
    ensures
        ordered(with_rules(c, rules).cmake_options),
        lookup(with_rules(c, rules).cmake_options, key) == match last_given(
            None::<Seq<char>>,
            given(
                rules,
                |r: RuleView|
                    match lookup(r.cmake_options, key) {
                        Some(v) => Some(Some(v)),
                        None => None,
                    },
            ),
        ) {
            Some(v) => Some(v),
            None => lookup(c.cmake_options, key),
        },
    decreases rules.len(),
{
    if rules.len() > 0 {
        let init = rules.drop_last();
        assert forall|i: int| 0 <= i < init.len() implies ordered(
            (#[trigger] init[i]).cmake_options,
        ) by {
            assert(init[i] == rules[i]);
        }
        the_last_rule_decides_an_option(c, init, key);
        let f = |r: RuleView|
            match lookup(r.cmake_options, key) {
                Some(v) => Some(Some(v)),
                None => None,
            };
        assert(given(rules, f).drop_last() =~= given(init, f));
        assert(ordered(rules[rules.len() - 1].cmake_options));
        merged_stays_ordered(with_rules(c, init).cmake_options, rules.last().cmake_options);
        lookup_after_merge(with_rules(c, init).cmake_options, rules.last().cmake_options, key);
    }
}

/// A later value wins whatever came before it.
proof fn lemma_last_given_append<T>(first: T, a: Seq<Option<T>>, b: Seq<Option<T>>)
    ensures
        last_given(first, a + b) == last_given(last_given(first, a), b),
    decreases b.len(),
{
    if b.len() == 0 {
        assert(a + b =~= a);
    } else {
        assert((a + b).drop_last() =~= a + b.drop_last());
        lemma_last_given_append(first, a, b.drop_last());
    }
}

/// What the rules for a package alone say of linkage wins over its own cascading rules,
/// these over the cascading rules of its dependents, and these over global rules.
pub proof fn linkage_follows_precedence(
    engine: StrategyEngine,
    package: Seq<char>,
    dependents: Seq<Seq<char>>,
    base: ConfigView,
)
    ensures
        ({
            let f = |r: RuleView| r.shared;
            let global = last_given(base.shared, given(engine.globals(), f));
            let inherited = last_given(global, given(engine.inherited(dependents), f));
            let own = last_given(inherited, given(engine.cascades(package), f));
            with_rules(base, engine.rules_for(package, dependents)).shared == last_given(
                own,
                given(engine.exacts(package), f),
            )
        }),
{
    let f = |r: RuleView| r.shared;
    let g = engine.globals();
    let h = engine.inherited(dependents);
    let c = engine.cascades(package);
    let e = engine.exacts(package);
    the_last_rule_decides(base, engine.rules_for(package, dependents));
    assert(given(g + h + c + e, f) =~= given(g, f) + given(h, f) + given(c, f) + given(e, f));
    lemma_last_given_append(base.shared, given(g, f), given(h, f));
    lemma_last_given_append(base.shared, given(g, f) + given(h, f), given(c, f));
    lemma_last_given_append(base.shared, given(g, f) + given(h, f) + given(c, f), given(e, f));
}

/// The first place of `f` in a list; behind its end where it has none.
pub open spec fn first_place(s: Seq<Seq<char>>, f: Seq<char>) -> int
    decreases s.len(),
{
    if s.len() == 0 {
        0
    } else if s[0] == f {
        0
    } else {
        1 + first_place(s.skip(1), f)
    }
}

proof fn lemma_first_place(s: Seq<Seq<char>>, x: Seq<char>, f: Seq<char>)
    ensures
        s.contains(f) ==> 0 <= first_place(s, f) < s.len() && first_place(s.push(x), f)
            == first_place(s, f),
        !s.contains(f) && x == f ==> first_place(s.push(x), f) == s.len(),
    decreases s.len(),
{
    let t = s.push(x);
    if s.len() == 0 {
        assert(t[0] == x);
    } else {
        assert(t.skip(1) =~= s.skip(1).push(x));
        assert(t[0] == s[0]);
        lemma_first_place(s.skip(1), x, f);
        assert(s =~= seq![s[0]] + s.skip(1));
        if s[0] == f {
            assert(s.contains(f));
        } else if s.contains(f) {
            let k = choose|k: int| 0 <= k < s.len() && s[k] == f;
            assert(s.skip(1)[k - 1] == f);
        } else if s.skip(1).contains(f) {
            let k = choose|k: int| 0 <= k < s.skip(1).len() && s.skip(1)[k] == f;
            assert(s[k + 1] == f);
        }
    }
}

/// The flags that were there stay in front as they are. Behind them comes every other flag once, in
/// the order of the first places.
pub proof fn flags_come_once(flags: Seq<Seq<char>>, more: Seq<Seq<char>>)
    ensures
        flags.is_prefix_of(with_flags(flags, more)),
        forall|f: Seq<char>|
            #![trigger with_flags(flags, more).contains(f)]
            with_flags(flags, more).contains(f) <==> flags.contains(f) || more.contains(f),
        forall|i: int|
            flags.len() <= i < with_flags(flags, more).len() ==> !flags.contains(
                #[trigger] with_flags(flags, more)[i],
            ),
        forall|i: int, j: int|
            flags.len() <= i < j < with_flags(flags, more).len() ==> first_place(
                more,
                #[trigger] with_flags(flags, more)[i],
            ) < first_place(more, #[trigger] with_flags(flags, more)[j]),
        flags.no_duplicates() ==> with_flags(flags, more).no_duplicates(),
    decreases more.len(),
{
    if more.len() == 0 {
        assert(flags =~= flags.subrange(0, flags.len() as int));
    } else {
        let init = more.drop_last();
        let last = more.last();
        flags_come_once(flags, init);
        let so_far = with_flags(flags, init);
        let out = with_flags(flags, more);
        assert(more =~= init.push(last));
        assert(flags =~= so_far.subrange(0, flags.len() as int));
        assert(flags =~= out.subrange(0, flags.len() as int));
        assert forall|f: Seq<char>| #[trigger] more.contains(f) <==> init.contains(f) || f
            == last by {
            if init.contains(f) {
                let k = choose|k: int| 0 <= k < init.len() && init[k] == f;
                assert(more[k] == f);
            }
            if f == last {
                assert(more[more.len() - 1] == f);
            }
            if more.contains(f) {
                let k = choose|k: int| 0 <= k < more.len() && more[k] == f;
                if k < init.len() {
                    assert(init[k] == f);
                }
            }
        }
        assert forall|f: Seq<char>|
            #![trigger out.contains(f)]
            out.contains(f) <==> flags.contains(f) || more.contains(f) by {
            assert(more.contains(f) <==> init.contains(f) || f == last);
            assert(so_far.contains(f) <==> flags.contains(f) || init.contains(f));
            if !so_far.contains(last) {
                assert(out.contains(f) <==> so_far.contains(f) || f == last) by {
                    if so_far.contains(f) {
                        let k = choose|k: int| 0 <= k < so_far.len() && so_far[k] == f;
                        assert(out[k] == f);
                    }
                    if f == last {
                        assert(out[so_far.len() as int] == f);
                    }
                    if out.contains(f) {
                        let k = choose|k: int| 0 <= k < out.len() && out[k] == f;
                        if k < so_far.len() {
                            assert(so_far[k] == f);
                        }
                    }
                }
            }
        }
        assert forall|i: int| flags.len() <= i < so_far.len() implies init.contains(
            #[trigger] so_far[i],
        ) by {
            assert(so_far.contains(so_far[i]));
        }
        assert forall|i: int, j: int| flags.len() <= i < j < out.len() implies first_place(
            more,
            #[trigger] out[i],
        ) < first_place(more, #[trigger] out[j]) by {
            assert(out[i] == so_far[i]);
            lemma_first_place(init, last, so_far[i]);
            if j < so_far.len() {
                assert(out[j] == so_far[j]);
                lemma_first_place(init, last, so_far[j]);
                assert(first_place(init, so_far[i]) < first_place(init, so_far[j]));
            } else {
                assert(!so_far.contains(last));
                lemma_first_place(init, last, last);
            }
        }
        assert forall|i: int| flags.len() <= i < out.len() implies !flags.contains(
            #[trigger] out[i],
        ) by {
            if i < so_far.len() {
                assert(out[i] == so_far[i]);
            }
        }
    }
}

/// A rule that sets something decides it; what it does not set stays. Without any rule a package
/// is a static release build with the dynamic runtime, no standard, no flags and no options.
pub proof fn a_rule_decides_what_it_sets(c: ConfigView, r: RuleView, key: Seq<char>)
    requires
        ordered(c.cmake_options),
        ordered(r.cmake_options),
    ensures
        ({
            let m = with_rules(c, seq![r]);
            &&& r.build_type is Some ==> m.build_type == r.build_type->0
            &&& r.build_type is None ==> m.build_type == c.build_type
            &&& r.shared is Some ==> m.shared == r.shared->0
            &&& r.shared is None ==> m.shared == c.shared
            &&& r.vc_runtime is Some ==> m.vc_runtime == r.vc_runtime->0
            &&& r.vc_runtime is None ==> m.vc_runtime == c.vc_runtime
            &&& r.cxx_std is Some ==> m.cxx_std == r.cxx_std->0
            &&& r.cxx_std is None ==> m.cxx_std == c.cxx_std
            &&& r.cxx_stdlib is Some ==> m.cxx_stdlib == r.cxx_stdlib->0
            &&& r.cxx_stdlib is None ==> m.cxx_stdlib == c.cxx_stdlib
            &&& r.lto is Some ==> m.lto == r.lto->0
            &&& r.lto is None ==> m.lto == c.lto
            &&& lookup(r.cmake_options, key) is Some ==> lookup(m.cmake_options, key) == lookup(
                r.cmake_options,
                key,
            )
            &&& lookup(r.cmake_options, key) is None ==> lookup(m.cmake_options, key) == lookup(
                c.cmake_options,
                key,
            )
            &&& c.flags.is_prefix_of(m.flags)
            &&& forall|f: Seq<char>| #[trigger]
                m.flags.contains(f) <==> c.flags.contains(f) || r.flags.contains(f)
        }),
        with_rules(c, Seq::empty()) == c,
        default_config().build_type == BuildType::Release,
        !default_config().shared && !default_config().lto,
        default_config().vc_runtime == VCRuntime::MultiThreadedDLL,
        default_config().cxx_stdlib == CxxStdlib::PlatformDefault,
        default_config().cxx_std.len() == 0 && default_config().flags.len() == 0,
        default_config().cmake_options.len() == 0,
{
    let one = seq![r];
    assert(one.drop_last() =~= Seq::empty());
    assert(one.last() == r);
    assert(with_rules(c, one.drop_last()) == c);
    lookup_after_merge(c.cmake_options, r.cmake_options, key);
    flags_come_once(c.flags, r.flags);
}

/// Rules are taken one after the other: those in front make the settings that those behind change.
pub proof fn rules_are_taken_in_order(c: ConfigView, front: Seq<RuleView>, back: Seq<RuleView>)
    ensures
        with_rules(c, front + back) == with_rules(with_rules(c, front), back),
{
    lemma_with_rules_split(c, front, back);
}

/// Where a rule stands in precedence for a package: for everything, for what a dependent needs, for
/// the package and what it needs, for the package alone.
pub open spec fn rank_for(r: RuleView, package: Seq<char>) -> int {
    match r.scope {
        StrategyScope::Global => 0,
        StrategyScope::Cascade => if r.package != Some(package) {
            1
        } else {
            2
        },
        StrategyScope::Exact => 3,
    }
}

proof fn lemma_filtered<A>(s: Seq<A>, f: spec_fn(A) -> bool)
    ensures
        forall|x: A| #![trigger s.filter(f).contains(x)]
            s.filter(f).contains(x) <==> s.contains(x) && f(x),
        forall|i: int| 0 <= i < s.filter(f).len() ==> f(#[trigger] s.filter(f)[i]),
    decreases s.len(),
{
    reveal(Seq::filter);
    if s.len() > 0 {
        let init = s.drop_last();
        lemma_filtered(init, f);
        let out = s.filter(f);
        let less = init.filter(f);
        assert forall|x: A| #![trigger out.contains(x)]
            out.contains(x) <==> s.contains(x) && f(x) by {
            if out.contains(x) {
                let i = choose|i: int| 0 <= i < out.len() && out[i] == x;
                if i < less.len() {
                    assert(less[i] == x);
                    assert(less.contains(x));
                    let k = choose|k: int| 0 <= k < init.len() && init[k] == x;
                    assert(s[k] == x);
                } else {
                    assert(s[s.len() - 1] == x);
                }
            }
            if s.contains(x) && f(x) {
                let k = choose|k: int| 0 <= k < s.len() && s[k] == x;
                if k < init.len() {
                    assert(init[k] == x);
                    assert(less.contains(x));
                    let i = choose|i: int| 0 <= i < less.len() && less[i] == x;
                    assert(out[i] == x);
                } else {
                    assert(out[out.len() - 1] == x);
                }
            }
        }
        assert forall|i: int| 0 <= i < out.len() implies f(#[trigger] out[i]) by {
            if i < less.len() {
                assert(out[i] == less[i]);
            }
        }
    }
}

proof fn lemma_inherited(
    engine: StrategyEngine,
    rules: Seq<RuleView>,
    dependents: Seq<Seq<char>>,
)
    requires
        engine.holds(rules),
    ensures
        forall|r: RuleView| #![trigger engine.inherited(dependents).contains(r)]
            engine.inherited(dependents).contains(r) <==> rules.contains(r) && r.scope
                == StrategyScope::Cascade && r.package is Some && dependents.contains(r.package->0),
    decreases dependents.len(),
{
    let all = engine.inherited(dependents);
    if dependents.len() > 0 {
        let init = dependents.drop_last();
        let d = dependents.last();
        lemma_inherited(engine, rules, init);
        let own = engine.cascades(d);
        lemma_filtered(rules, |r: RuleView| r.scope == StrategyScope::Cascade
            && r.package == Some(d));
        let front = engine.inherited(init);
        assert forall|r: RuleView| #![trigger all.contains(r)]
            all.contains(r) <==> rules.contains(r) && r.scope == StrategyScope::Cascade && r.package
                is Some && dependents.contains(r.package->0) by {
            lemma_rule_in_either(front, own, r);
            assert(own.contains(r) <==> rules.contains(r) && r.scope == StrategyScope::Cascade
                && r.package == Some(d));
            if r.package is Some {
                let p = r.package->0;
                if init.contains(p) {
                    let k = choose|k: int| 0 <= k < init.len() && init[k] == p;
                    assert(dependents[k] == p);
                }
                if p == d {
                    assert(dependents[dependents.len() - 1] == p);
                }
                if dependents.contains(p) && p != d {
                    let k = choose|k: int| 0 <= k < dependents.len() && dependents[k] == p;
                    assert(init[k] == p);
                }
            }
        }
    }
}

proof fn lemma_rule_in_either(a: Seq<RuleView>, b: Seq<RuleView>, x: RuleView)
    ensures
        (a + b).contains(x) <==> a.contains(x) || b.contains(x),
{
    let s = a + b;
    if a.contains(x) {
        let i = choose|i: int| 0 <= i < a.len() && a[i] == x;
        assert(s[i] == x);
    }
    if b.contains(x) {
        let i = choose|i: int| 0 <= i < b.len() && b[i] == x;
        assert(s[a.len() + i] == x);
    }
    if s.contains(x) {
        let i = choose|i: int| 0 <= i < s.len() && s[i] == x;
        if i < a.len() {
            assert(a[i] == x);
        } else {
            assert(b[i - a.len()] == x);
        }
    }
}

/// A package is built by the rules for everything, by the cascading rules of its own and of its
/// dependents, and by the rules for it alone; no other rule touches it. The rules that are closer
/// to the package stand behind and so decide.
pub proof fn the_closer_rule_stands_behind(
    engine: StrategyEngine,
    rules: Seq<RuleView>,
    package: Seq<char>,
    dependents: Seq<Seq<char>>,
)
    requires
        engine.holds(rules),
    ensures
        forall|r: RuleView| #![trigger engine.rules_for(package, dependents).contains(r)]
            engine.rules_for(package, dependents).contains(r) <==> rules.contains(r) && {
                ||| r.scope == StrategyScope::Global
                ||| r.scope == StrategyScope::Cascade && r.package is Some && (r.package->0
                    == package || dependents.contains(r.package->0))
                ||| r.scope == StrategyScope::Exact && r.package == Some(package)
            },
        !dependents.contains(package) ==> forall|i: int, j: int|
            0 <= i < j < engine.rules_for(package, dependents).len() ==> rank_for(
                #[trigger] engine.rules_for(package, dependents)[i],
                package,
            ) <= rank_for(#[trigger] engine.rules_for(package, dependents)[j], package),
{
    let g = engine.globals();
    let h = engine.inherited(dependents);
    let c = engine.cascades(package);
    let e = engine.exacts(package);
    let all = engine.rules_for(package, dependents);
    lemma_filtered(rules, |r: RuleView| r.scope == StrategyScope::Global);
    lemma_filtered(
        rules,
        |r: RuleView| r.scope == StrategyScope::Cascade && r.package == Some(package),
    );
    lemma_filtered(
        rules,
        |r: RuleView| r.scope == StrategyScope::Exact && r.package == Some(package),
    );
    lemma_inherited(engine, rules, dependents);
    assert forall|r: RuleView| #![trigger all.contains(r)]
        all.contains(r) <==> rules.contains(r) && {
            ||| r.scope == StrategyScope::Global
            ||| r.scope == StrategyScope::Cascade && r.package is Some && (r.package->0 == package
                || dependents.contains(r.package->0))
            ||| r.scope == StrategyScope::Exact && r.package == Some(package)
        } by {
        lemma_rule_in_either(g, h, r);
        lemma_rule_in_either(g + h, c, r);
        lemma_rule_in_either(g + h + c, e, r);
        assert(g.contains(r) <==> rules.contains(r) && r.scope == StrategyScope::Global);
        assert(c.contains(r) <==> rules.contains(r) && r.scope == StrategyScope::Cascade
            && r.package
            == Some(package));
        assert(e.contains(r) <==> rules.contains(r) && r.scope == StrategyScope::Exact && r.package
            == Some(package));
        assert(h.contains(r) <==> rules.contains(r) && r.scope == StrategyScope::Cascade
            && r.package
            is Some && dependents.contains(r.package->0));
    }
    if !dependents.contains(package) {
        let m = g.len() as int;
        let n = m + h.len();
        let o = n + c.len();
        assert forall|i: int| 0 <= i < all.len() implies rank_for(#[trigger] all[i], package) == if i
            < m {
            0int
        } else if i < n {
            1
        } else if i < o {
            2
        } else {
            3
        } by {
            if i < m {
                assert(all[i] == g[i]);
                assert(g.contains(g[i]));
            } else if i < n {
                assert(all[i] == h[i - m]);
                assert(h.contains(h[i - m]));
            } else if i < o {
                assert(all[i] == c[i - n]);
                assert(c.contains(c[i - n]));
            } else {
                assert(all[i] == e[i - o]);
                assert(e.contains(e[i - o]));
            }
        }
    }
}

/// Of two dependents the later one decides.
pub proof fn the_later_dependent_decides(
    engine: StrategyEngine,
    first: Seq<Seq<char>>,
    d: Seq<char>,
)
    ensures
        engine.inherited(first + seq![d]) == engine.inherited(first) + engine.cascades(d),
{
    let all = first + seq![d];
    assert(all.drop_last() =~= first);
    assert(all.last() == d);
}

/// Only a rule for everything can do without a package, and the message names the scope.
pub proof fn a_scoped_rule_needs_a_package(r: RuleView)
    ensures
        lacks_package(r) <==> r.package is None && (r.scope == StrategyScope::Exact || r.scope
            == StrategyScope::Cascade),
        lacks_package_message(StrategyScope::Exact)
            == "[[strategy]] rule with scope = \"exact\" requires a `package` field"@,
        lacks_package_message(StrategyScope::Cascade)
            == "[[strategy]] rule with scope = \"cascade\" requires a `package` field"@,
        scope_text(StrategyScope::Global) == "Global"@,
{
    reveal_strlit("[[strategy]] rule with scope = \"");
    reveal_strlit("\" requires a `package` field");
    reveal_strlit("Exact");
    reveal_strlit("Cascade");
    reveal_strlit("[[strategy]] rule with scope = \"exact\" requires a `package` field");
    reveal_strlit("[[strategy]] rule with scope = \"cascade\" requires a `package` field");
    let a = "[[strategy]] rule with scope = \""@;
    let c = "\" requires a `package` field"@;
    let x = a + "Exact"@ + c;
    let y = a + "Cascade"@ + c;
    assert(is_ascii_chars(x));
    assert(is_ascii_chars(y));
    assert(lower(x) =~= "[[strategy]] rule with scope = \"exact\" requires a `package` field"@);
    assert(lower(y) =~= "[[strategy]] rule with scope = \"cascade\" requires a `package` field"@);
}

} // verus!
