use vstd::prelude::*;

verus! {

/// A replacement rule: typing `trigger` makes it be replaced by `replace`.
#[derive(Debug)]
pub struct Match {
    pub trigger: String,
    pub replace: String,
}

/// The mathematical model of a [`Match`].
pub struct Rule {
    pub trigger: Seq<char>,
    pub replace: Seq<char>,
}

impl View for Match {
    type V = Rule;

    open spec fn view(&self) -> Rule {
        Rule { trigger: self.trigger@, replace: self.replace@ }
    }
}

impl Clone for Match {
    fn clone(&self) -> (r: Match)
        ensures
            r@ == self@,
    {
        Match { trigger: self.trigger.clone(), replace: self.replace.clone() }
    }
}

impl Match {
    pub fn new(trigger: &str, replace: &str) -> (r: Match)
        ensures
            r@.trigger == trigger@,
            r@.replace == replace@,
    {
        Match { trigger: trigger.to_owned(), replace: replace.to_owned() }
    }
}

/// The rules of a list of matches, in order.
pub open spec fn rules_of(ms: Seq<Match>) -> Seq<Rule> {
    ms.map_values(|m: Match| m@)
}

/// Whether some rule of `rules` has the trigger `t`.
pub open spec fn defines(rules: Seq<Rule>, t: Seq<char>) -> bool {
    exists|i: int| 0 <= i < rules.len() && rules[i].trigger == t
}

/// The rules of `inherited` whose trigger `own` does not define.
pub open spec fn not_overridden(own: Seq<Rule>, inherited: Seq<Rule>) -> Seq<Rule> {
    inherited.filter(|r: Rule| !defines(own, r.trigger))
}

/// `own` extended by the inherited rules that it does not override: a rule of
/// `own` always wins over an inherited rule with the same trigger.
pub open spec fn merge_rules(own: Seq<Rule>, inherited: Seq<Rule>) -> Seq<Rule> {
    own + not_overridden(own, inherited)
}

/// The first rule of `rules` with trigger `t`, the one a lookup by trigger finds.
pub open spec fn lookup(rules: Seq<Rule>, t: Seq<char>) -> Option<Rule>
    decreases rules.len(),
{
    if rules.len() == 0 {
        None
    } else {
        match lookup(rules.drop_last(), t) {
            Some(r) => Some(r),
            None => if rules.last().trigger == t {
                Some(rules.last())
            } else {
                None
            },
        }
    }
}

/// A lookup finds a rule exactly when some rule has the trigger, and what it
/// finds has that trigger.
pub proof fn lemma_lookup_defines(rules: Seq<Rule>, t: Seq<char>)
    ensures
        lookup(rules, t) is Some <==> defines(rules, t),
        lookup(rules, t) is Some ==> lookup(rules, t)->Some_0.trigger == t,
    decreases rules.len(),
{
    if rules.len() > 0 {
        let rest = rules.drop_last();
        lemma_lookup_defines(rest, t);
        if defines(rest, t) {
            let i = choose|i: int| 0 <= i < rest.len() && rest[i].trigger == t;
            assert(rules[i].trigger == t);
        }
        if defines(rules, t) && !defines(rest, t) {
            let i = choose|i: int| 0 <= i < rules.len() && rules[i].trigger == t;
            if i < rest.len() {
                assert(rest[i].trigger == t);
            }
        }
        if rules.last().trigger == t {
            assert(rules[rules.len() - 1].trigger == t);
        }
    }
}

proof fn lemma_lookup_append(a: Seq<Rule>, b: Seq<Rule>, t: Seq<char>)
    ensures
        lookup(a + b, t) == if lookup(a, t) is Some {
            lookup(a, t)
        } else {
            lookup(b, t)
        },
    decreases b.len(),
{
    if b.len() == 0 {
        assert(a + b =~= a);
    } else {
        assert((a + b).drop_last() =~= a + b.drop_last());
        lemma_lookup_append(a, b.drop_last(), t);
    }
}

proof fn lemma_lookup_filter(s: Seq<Rule>, p: spec_fn(Rule) -> bool, t: Seq<char>)
    requires
        forall|r: Rule| r.trigger == t ==> p(r),
    ensures
        lookup(s.filter(p), t) == lookup(s, t),
    decreases s.len(),
{
    if s.len() > 0 {
        let rest = s.drop_last();
        lemma_lookup_filter(rest, p, t);
        assert(rest.push(s.last()) =~= s);
        rest.lemma_filter_push(s.last(), p);
        if p(s.last()) {
            assert(rest.filter(p).push(s.last()).drop_last() =~= rest.filter(p));
        }
    }
}

proof fn lemma_filter_keeps_all(s: Seq<Rule>, p: spec_fn(Rule) -> bool)
    requires
        forall|i: int| 0 <= i < s.len() ==> p(s[i]),
    ensures
        s.filter(p) == s,
    decreases s.len(),
{
    if s.len() > 0 {
        let rest = s.drop_last();
        lemma_filter_keeps_all(rest, p);
        assert(rest.push(s.last()) =~= s);
        rest.lemma_filter_push(s.last(), p);
    }
}

/// A document's own rule for a trigger wins over the inherited one: after a
/// merge, looking up a trigger that the document defines finds its own rule,
/// and looking up any other trigger finds the inherited rule.
pub proof fn lemma_own_rule_wins(own: Seq<Rule>, inherited: Seq<Rule>, t: Seq<char>)
    ensures
        defines(own, t) ==> lookup(merge_rules(own, inherited), t) == lookup(own, t),
        !defines(own, t) ==> lookup(merge_rules(own, inherited), t) == lookup(inherited, t),
{
    lemma_lookup_defines(own, t);
    lemma_lookup_append(own, not_overridden(own, inherited), t);
    if !defines(own, t) {
        lemma_lookup_filter(inherited, |r: Rule| !defines(own, r.trigger), t);
    }
}

/// The rules of `rules` with trigger `t`, in order.
pub open spec fn rules_for(rules: Seq<Rule>, t: Seq<char>) -> Seq<Rule> {
    rules.filter(|r: Rule| r.trigger == t)
}

/// Some rule is for `t` exactly when `rules` defines `t`.
pub proof fn lemma_rules_for_defines(rules: Seq<Rule>, t: Seq<char>)
    ensures
        defines(rules, t) <==> rules_for(rules, t).len() > 0,
    decreases rules.len(),
{
    reveal(Seq::filter);
    if rules.len() > 0 {
        let rest = rules.drop_last();
        lemma_rules_for_defines(rest, t);
        if defines(rest, t) {
            let i = choose|i: int| 0 <= i < rest.len() && rest[i].trigger == t;
            assert(rules[i].trigger == t);
        }
        if defines(rules, t) && !defines(rest, t) {
            let i = choose|i: int| 0 <= i < rules.len() && rules[i].trigger == t;
            if i < rest.len() {
                assert(rest[i].trigger == t);
            }
        }
        if rules.last().trigger == t {
            assert(rules[rules.len() - 1].trigger == t);
        }
    }
}

proof fn lemma_filter_filter(s: Seq<Rule>, p: spec_fn(Rule) -> bool, q: spec_fn(Rule) -> bool)
    ensures
        (forall|r: Rule| #[trigger] q(r) ==> p(r)) ==> s.filter(p).filter(q) == s.filter(q),
        (forall|r: Rule| #[trigger] q(r) ==> !p(r)) ==> s.filter(p).filter(q) == Seq::<Rule>::empty(),
    decreases s.len(),
{
    if s.len() == 0 {
        reveal(Seq::filter);
    } else {
        let rest = s.drop_last();
        let x = s.last();
        lemma_filter_filter(rest, p, q);
        assert(rest.push(x) =~= s);
        rest.lemma_filter_push(x, p);
        rest.lemma_filter_push(x, q);
        rest.filter(p).lemma_filter_push(x, q);
    }
}

/// After a merge, the rules for a trigger are the document's own rules for
/// it where it defines the trigger, and the inherited ones otherwise: own and
/// inherited rules for one trigger never stand side by side.
pub proof fn lemma_rules_for_merge(own: Seq<Rule>, inherited: Seq<Rule>, t: Seq<char>)
    ensures
        rules_for(merge_rules(own, inherited), t) == if defines(own, t) {
            rules_for(own, t)
        } else {
            rules_for(inherited, t)
        },
{
    let keep = |r: Rule| !defines(own, r.trigger);
    let is_t = |r: Rule| r.trigger == t;
    Seq::filter_distributes_over_add(own, not_overridden(own, inherited), is_t);
    lemma_filter_filter(inherited, keep, is_t);
    if defines(own, t) {
        assert(rules_for(own, t) + Seq::<Rule>::empty() =~= rules_for(own, t));
    } else {
        lemma_filter_keeps_none(own, is_t);
        assert(Seq::<Rule>::empty() + rules_for(inherited, t) =~= rules_for(inherited, t));
    }
}

proof fn lemma_filter_keeps_none(s: Seq<Rule>, p: spec_fn(Rule) -> bool)
    requires
        forall|i: int| 0 <= i < s.len() ==> !p(s[i]),
    ensures
        s.filter(p) == Seq::<Rule>::empty(),
    decreases s.len(),
{
    reveal(Seq::filter);
    if s.len() > 0 {
        lemma_filter_keeps_none(s.drop_last(), p);
    }
}

/// When a document and the one it inherits from share no trigger, the merge
/// keeps every rule of both: the own rules followed by all the inherited ones.
pub proof fn lemma_disjoint_merge(own: Seq<Rule>, inherited: Seq<Rule>)
    requires
        forall|i: int, j: int| 0 <= i < own.len() && 0 <= j < inherited.len() ==> own[i].trigger != inherited[j].trigger,
    ensures
        merge_rules(own, inherited) == own + inherited,
        merge_rules(own, inherited).len() == own.len() + inherited.len(),
{
    let keep = |r: Rule| !defines(own, r.trigger);
    assert forall|j: int| 0 <= j < inherited.len() implies keep(inherited[j]) by {
        if defines(own, inherited[j].trigger) {
            let i = choose|i: int| 0 <= i < own.len() && own[i].trigger == inherited[j].trigger;
        }
    }
    lemma_filter_keeps_all(inherited, keep);
}

/// Appends to `merged` the rules of `inherited` whose trigger `merged` does not
/// already define.
pub fn extend_with_inherited(merged: &mut Vec<Match>, inherited: &Vec<Match>)
    ensures
        rules_of(final(merged)@) == merge_rules(rules_of(old(merged)@), rules_of(inherited@)),
{
    let ghost own = rules_of(merged@);
    let ghost inh = rules_of(inherited@);
    let ghost keep = |r: Rule| !defines(own, r.trigger);
    let n = merged.len();
    let mut i: usize = 0;
    proof {
        assert(inh.take(0) =~= Seq::<Rule>::empty());
        reveal(Seq::filter);
        assert(rules_of(merged@) =~= own + inh.take(0).filter(keep));
    }
    while i < inherited.len()
        invariant
            0 <= i <= inherited.len(),
            n == own.len(),
            own == rules_of(old(merged)@),
            inh == rules_of(inherited@),
            keep == (|r: Rule| !defines(own, r.trigger)),
            rules_of(merged@) == own + inh.take(i as int).filter(keep),
        decreases inherited.len() - i,
    {
        let m = &inherited[i];
        proof {
            assert(rules_of(merged@).take(n as int) =~= own);
            assert(rules_of(merged@).len() == merged@.len());
        }
        let mut found = false;
        let mut j: usize = 0;
        while j < n
            invariant
                0 <= j <= n,
                n == own.len(),
                n <= merged@.len(),
                rules_of(merged@).take(n as int) == own,
                found == (exists|k: int| 0 <= k < j && own[k].trigger == m@.trigger),
            decreases n - j,
        {
            proof {
                assert(rules_of(merged@)[j as int] == own[j as int]);
            }
            if merged[j].trigger == m.trigger {
                found = true;
            }
            j = j + 1;
        }
        proof {
            assert(found == defines(own, m@.trigger));
            assert(inh.take(i + 1) =~= inh.take(i as int).push(inh[i as int]));
            inh.take(i as int).lemma_filter_push(inh[i as int], keep);
        }
        if !found {
            let c = m.clone();
            let ghost before = merged@;
            merged.push(c);
            proof {
                assert(rules_of(merged@) =~= rules_of(before).push(c@));
            }
        }
        i = i + 1;
    }
    proof {
        assert(inh.take(inherited.len() as int) =~= inh);
    }
}

} // verus!
