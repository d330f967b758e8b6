//! Binding environments: immutable, ordered mappings from names to values.
//! Every binding form returns a new environment; entries stay strictly sorted
//! by name, so equal contents mean equal representations.

use vstd::prelude::*;

use crate::expression::Environment;
use crate::expression::EnvV;
use crate::expression::ExprV;
use crate::expression::Expression;
use crate::expression::lemma_view_env_entries;
use crate::expression::view_env_entries;
use crate::order::Cmp;
use crate::order::cmp_str;
use crate::order::compare_text;
use crate::order::lemma_cmp_str_flip;
use crate::order::lemma_cmp_str_refl;
use crate::order::lemma_cmp_str_trans;
use crate::order::lemma_str_eq_subst;

verus! {

broadcast use vstd::std_specs::vec::group_vec_axioms, vstd::seq::group_seq_axioms;

/// The value bound to a name, if any: the first entry whose name matches.
pub open spec fn env_lookup_v(env: EnvV, name: Seq<char>) -> Option<ExprV>
    decreases env.len(),
{
    if env.len() == 0 {
        None
    } else if env[0].0 == name {
        Some(env[0].1)
    } else {
        env_lookup_v(env.drop_first(), name)
    }
}

/// A new environment in which `name` is bound to `value` and every other
/// binding is unchanged; the entry stands at its sorted position.
pub open spec fn env_insert_v(env: EnvV, name: Seq<char>, value: ExprV) -> EnvV
    decreases env.len(),
{
    if env.len() == 0 {
        seq![(name, value)]
    } else {
        match cmp_str(name, env[0].0) {
            Cmp::Lt => seq![(name, value)] + env,
            Cmp::Eq => seq![(name, value)] + env.drop_first(),
            Cmp::Gt => seq![env[0]] + env_insert_v(env.drop_first(), name, value),
        }
    }
}

/// Entries strictly ascend by name.
pub open spec fn env_sorted(env: EnvV) -> bool {
    forall|i: int, j: int| 0 <= i < j < env.len() ==> cmp_str(env[i].0, env[j].0) == Cmp::Lt
}

impl Environment {
    /// The mathematical content of the environment.
    pub open spec fn contents(self) -> EnvV {
        view_env_entries(self.entries@)
    }

    /// Looks a name up, returning a copy of the bound value.
    pub fn lookup(&self, name: &str) -> (r: Option<Expression>)
        ensures
            match r {
                Some(e) => env_lookup_v(self@, name@) == Some(e@),
                None => env_lookup_v(self@, name@) == None::<ExprV>,
            },
    {
        proof {
            lemma_view_env_entries(self.entries@);
            assert(self@.skip(0) =~= self@);
        }
        let n = self.entries.len();
        let mut i: usize = 0;
        while i < n
            invariant
                i <= n,
                n == self.entries@.len(),
                env_lookup_v(self@, name@) == env_lookup_v(self@.skip(i as int), name@),
                self@.len() == n,
                forall|j: int| 0 <= j < self@.len() ==> self@[j]
                    == (self.entries@[j].0@, self.entries@[j].1@),
            decreases n - i,
        {
            let c = compare_text(self.entries[i].0.as_str(), name, 0);
            proof {
                lemma_str_eq_subst(self.entries@[i as int].0@, name@);
                if self.entries@[i as int].0@ == name@ {
                    lemma_cmp_str_refl(name@, 0);
                }
                assert(self@.skip(i as int)[0] == self@[i as int]);
                assert(self@.skip(i as int).drop_first() =~= self@.skip(i as int + 1));
            }
            if matches!(c, Cmp::Eq) {
                return Some(self.entries[i].1.duplicate());
            }
            i = i + 1;
        }
        proof {
            assert(self@.skip(n as int) =~= Seq::<(Seq<char>, ExprV)>::empty());
        }
        None
    }

    /// Returns a new environment with `name` bound to a copy of `value`.
    pub fn insert(&self, name: &str, value: &Expression) -> (r: Environment)
        ensures
            r@ == env_insert_v(self@, name@, value@),
    {
        proof {
            assert(self@.skip(0) =~= self@);
        }
        Environment { entries: insert_binding(&self.entries, 0, name, value) }
    }
}

/// Copies the bindings from position `i` on.
fn copy_bindings_from(
    entries: &Vec<(String, Expression)>,
    i: usize,
) -> (r: Vec<(String, Expression)>)
    requires
        i <= entries@.len(),
    ensures
        view_env_entries(r@) == view_env_entries(entries@).skip(i as int),
{
    let mut out: Vec<(String, Expression)> = Vec::new();
    let mut j: usize = i;
    while j < entries.len()
        invariant
            i <= j <= entries@.len(),
            out@.len() == j - i,
            forall|k: int| 0 <= k < out@.len() ==> out@[k].0@ == entries@[i + k].0@
                && out@[k].1@ == entries@[i + k].1@,
        decreases entries.len() - j,
    {
        out.push((entries[j].0.clone(), entries[j].1.duplicate()));
        j = j + 1;
    }
    proof {
        lemma_view_env_entries(out@);
        lemma_view_env_entries(entries@);
        assert(view_env_entries(out@) =~= view_env_entries(entries@).skip(i as int));
    }
    out
}

/// Builds the entries of an insertion into the suffix starting at `i`.
fn insert_binding(
    entries: &Vec<(String, Expression)>,
    i: usize,
    name: &str,
    value: &Expression,
) -> (r: Vec<(String, Expression)>)
    requires
        i <= entries@.len(),
    ensures
        view_env_entries(r@) == env_insert_v(view_env_entries(entries@).skip(i as int), name@, value@),
    decreases entries@.len() - i,
{
    proof {
        lemma_view_env_entries(entries@);
    }
    let ghost suffix = view_env_entries(entries@).skip(i as int);
    if i >= entries.len() {
        let mut out: Vec<(String, Expression)> = Vec::new();
        out.push((name.to_owned(), value.duplicate()));
        proof {
            lemma_view_env_entries(out@);
            assert(suffix =~= Seq::<(Seq<char>, ExprV)>::empty());
            assert(view_env_entries(out@) =~= env_insert_v(suffix, name@, value@));
        }
        out
    } else {
        let c = compare_text(name, entries[i].0.as_str(), 0);
        proof {
            assert(suffix[0] == (entries@[i as int].0@, entries@[i as int].1@));
            assert(suffix.drop_first() =~= view_env_entries(entries@).skip(i as int + 1));
        }
        match c {
            Cmp::Lt => {
                let mut out = copy_bindings_from(entries, i);
                let ghost pre = out@;
                out.insert(0, (name.to_owned(), value.duplicate()));
                proof {
                    lemma_view_env_entries(out@);
                    lemma_view_env_entries(pre);
                    assert(view_env_entries(out@) =~= seq![(name@, value@)]
                        + view_env_entries(pre));
                    assert(view_env_entries(out@) =~= env_insert_v(suffix, name@, value@));
                }
                out
            },
            Cmp::Eq => {
                let mut out = copy_bindings_from(entries, i + 1);
                let ghost pre = out@;
                out.insert(0, (name.to_owned(), value.duplicate()));
                proof {
                    lemma_view_env_entries(out@);
                    lemma_view_env_entries(pre);
                    assert(view_env_entries(out@) =~= seq![(name@, value@)]
                        + view_env_entries(pre));
                    assert(view_env_entries(out@) =~= env_insert_v(suffix, name@, value@));
                }
                out
            },
            Cmp::Gt => {
                let mut out = insert_binding(entries, i + 1, name, value);
                let ghost pre = out@;
                out.insert(0, (entries[i].0.clone(), entries[i].1.duplicate()));
                proof {
                    lemma_view_env_entries(out@);
                    lemma_view_env_entries(pre);
                    assert(view_env_entries(out@) =~= seq![suffix[0]] + view_env_entries(pre));
                    assert(view_env_entries(out@) =~= env_insert_v(suffix, name@, value@));
                }
                out
            },
        }
    }
}


/// Binding a name binds exactly that name.
pub proof fn lemma_env_insert_lookup(env: EnvV, name: Seq<char>, value: ExprV)
    ensures
        env_lookup_v(env_insert_v(env, name, value), name) == Some(value),
    decreases env.len(),
{
    lemma_cmp_str_refl(name, 0);
    if env.len() > 0 {
        lemma_str_eq_subst(name, env[0].0);
        match cmp_str(name, env[0].0) {
            Cmp::Lt => {
                assert((seq![(name, value)] + env)[0] == (name, value));
            },
            Cmp::Eq => {
                assert((seq![(name, value)] + env.drop_first())[0] == (name, value));
            },
            Cmp::Gt => {
                lemma_env_insert_lookup(env.drop_first(), name, value);
                let ins = seq![env[0]] + env_insert_v(env.drop_first(), name, value);
                assert(ins[0] == env[0]);
                assert(env[0].0 != name);
                assert(ins.drop_first() =~= env_insert_v(env.drop_first(), name, value));
            },
        }
    }
}

/// Binding a name leaves every other binding unchanged.
pub proof fn lemma_env_insert_lookup_other(
    env: EnvV,
    name: Seq<char>,
    value: ExprV,
    other: Seq<char>,
)
    requires
        other != name,
    ensures
        env_lookup_v(env_insert_v(env, name, value), other) == env_lookup_v(env, other),
    decreases env.len(),
{
    if env.len() == 0 {
        assert((seq![(name, value)])[0].0 == name);
        assert((seq![(name, value)]).drop_first() =~= Seq::<(Seq<char>, ExprV)>::empty());
        assert(env_lookup_v(Seq::<(Seq<char>, ExprV)>::empty(), other) == None::<ExprV>);
    } else {
        lemma_str_eq_subst(name, env[0].0);
        match cmp_str(name, env[0].0) {
            Cmp::Lt => {
                let ins = seq![(name, value)] + env;
                assert(ins[0].0 == name);
                assert(ins.drop_first() =~= env);
            },
            Cmp::Eq => {
                let ins = seq![(name, value)] + env.drop_first();
                assert(ins[0].0 == name);
                assert(ins.drop_first() =~= env.drop_first());
                assert(env[0].0 == name);
            },
            Cmp::Gt => {
                lemma_env_insert_lookup_other(env.drop_first(), name, value, other);
                let ins = seq![env[0]] + env_insert_v(env.drop_first(), name, value);
                assert(ins[0] == env[0]);
                assert(ins.drop_first() =~= env_insert_v(env.drop_first(), name, value));
            },
        }
    }
}

/// Every entry of an extended environment is the written binding or one of
/// the old ones.
pub proof fn lemma_env_insert_members(env: EnvV, name: Seq<char>, value: ExprV)
    ensures
        forall|j: int| 0 <= j < env_insert_v(env, name, value).len()
            ==> (#[trigger] env_insert_v(env, name, value)[j] == (name, value) || env.contains(
            env_insert_v(env, name, value)[j],
        )),
    decreases env.len(),
{
    let ins = env_insert_v(env, name, value);
    if env.len() == 0 {
        assert(ins =~= seq![(name, value)]);
    } else {
        match cmp_str(name, env[0].0) {
            Cmp::Lt => {
                assert forall|j: int| 0 <= j < ins.len() implies (ins[j] == (name, value)
                    || env.contains(ins[j])) by {
                    if j > 0 {
                        assert(ins[j] == env[j - 1]);
                    }
                }
            },
            Cmp::Eq => {
                assert forall|j: int| 0 <= j < ins.len() implies (ins[j] == (name, value)
                    || env.contains(ins[j])) by {
                    if j > 0 {
                        assert(ins[j] == env.drop_first()[j - 1]);
                        assert(env.drop_first()[j - 1] == env[j]);
                    }
                }
            },
            Cmp::Gt => {
                lemma_env_insert_members(env.drop_first(), name, value);
                let tail = env_insert_v(env.drop_first(), name, value);
                assert forall|j: int| 0 <= j < ins.len() implies (ins[j] == (name, value)
                    || env.contains(ins[j])) by {
                    if j == 0 {
                        assert(ins[0] == env[0]);
                    } else {
                        assert(ins[j] == tail[j - 1]);
                        if tail[j - 1] != (name, value) {
                            assert(env.drop_first().contains(tail[j - 1]));
                            let i = choose|i: int| 0 <= i < env.drop_first().len()
                                && env.drop_first()[i] == tail[j - 1];
                            assert(env[i + 1] == tail[j - 1]);
                        }
                    }
                }
            },
        }
    }
}

/// Binding a name keeps the entries strictly sorted.
pub proof fn lemma_env_insert_sorted(env: EnvV, name: Seq<char>, value: ExprV)
    requires
        env_sorted(env),
    ensures
        env_sorted(env_insert_v(env, name, value)),
    decreases env.len(),
{
    let ins = env_insert_v(env, name, value);
    if env.len() == 0 {
    } else {
        lemma_str_eq_subst(name, env[0].0);
        match cmp_str(name, env[0].0) {
            Cmp::Lt => {
                assert forall|i: int, j: int| 0 <= i < j < ins.len() implies cmp_str(
                    ins[i].0,
                    ins[j].0,
                ) == Cmp::Lt by {
                    if i == 0 {
                        assert(ins[0] == (name, value));
                        assert(ins[j] == env[j - 1]);
                        if j > 1 {
                            assert(cmp_str(env[0].0, env[j - 1].0) == Cmp::Lt);
                            lemma_cmp_str_trans(name, env[0].0, env[j - 1].0, 0);
                        }
                    } else {
                        assert(ins[i] == env[i - 1] && ins[j] == env[j - 1]);
                    }
                }
            },
            Cmp::Eq => {
                assert forall|i: int, j: int| 0 <= i < j < ins.len() implies cmp_str(
                    ins[i].0,
                    ins[j].0,
                ) == Cmp::Lt by {
                    if i == 0 {
                        assert(ins[0] == (name, value));
                        assert(ins[j] == env.drop_first()[j - 1]);
                        assert(env.drop_first()[j - 1] == env[j]);
                        assert(cmp_str(env[0].0, env[j].0) == Cmp::Lt);
                        assert(name == env[0].0);
                    } else {
                        assert(ins[i] == env[i] && ins[j] == env[j]);
                    }
                }
            },
            Cmp::Gt => {
                assert(env_sorted(env.drop_first())) by {
                    assert(forall|i: int| 0 <= i < env.drop_first().len() ==> env.drop_first()[i]
                        == env[i + 1]);
                }
                lemma_env_insert_sorted(env.drop_first(), name, value);
                lemma_env_insert_members(env.drop_first(), name, value);
                let tail = env_insert_v(env.drop_first(), name, value);
                lemma_cmp_str_flip(name, env[0].0, 0);
                assert forall|i: int, j: int| 0 <= i < j < ins.len() implies cmp_str(
                    ins[i].0,
                    ins[j].0,
                ) == Cmp::Lt by {
                    if i == 0 {
                        assert(ins[0] == env[0]);
                        assert(ins[j] == tail[j - 1]);
                        if tail[j - 1] == (name, value) {
                            assert(cmp_str(env[0].0, name) == Cmp::Lt);
                        } else {
                            assert(env.drop_first().contains(tail[j - 1]));
                            let k = choose|k: int| 0 <= k < env.drop_first().len()
                                && env.drop_first()[k] == tail[j - 1];
                            assert(env[k + 1] == tail[j - 1]);
                            assert(cmp_str(env[0].0, env[k + 1].0) == Cmp::Lt);
                        }
                    } else {
                        assert(ins[i] == tail[i - 1] && ins[j] == tail[j - 1]);
                    }
                }
            },
        }
    }
}

} // verus!
