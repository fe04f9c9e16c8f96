//! Session context: caller-set variables that statements read by key.

use vstd::prelude::*;
use vstd::string::StringExecFns;
use crate::error::{Error, Fault, Result};
use crate::plan::CompiledPlan;
use crate::text::quoted_in;
use crate::utf8::same_text;
use crate::value::{copy_values, models, type_text, value_fits, value_type_text, ColumnType, Value, ValueModel};

verus! {

/// Caller-asserted session context. Nothing in it is authenticated.
#[derive(Debug)]
pub struct Session {
    ctx: Vec<(String, Value)>,
}

/// What a session holds: a value for each key that is set.
pub open spec fn context_map(ctx: Seq<(String, Value)>) -> Map<Seq<char>, ValueModel>
    decreases ctx.len(),
{
    if ctx.len() == 0 {
        Map::empty()
    } else {
        context_map(ctx.drop_last()).insert(ctx.last().0@, ctx.last().1.model())
    }
}

proof fn lemma_context_at(ctx: Seq<(String, Value)>, i: int)
    requires
        0 <= i < ctx.len(),
        forall|j: int| i < j < ctx.len() ==> (#[trigger] ctx[j]).0@ != ctx[i].0@,
    ensures
        context_map(ctx).dom().contains(ctx[i].0@),
        context_map(ctx)[ctx[i].0@] == ctx[i].1.model(),
    decreases ctx.len(),
{
    if i < ctx.len() - 1 {
        let d = ctx.drop_last();
        assert forall|j: int| i < j < d.len() implies (#[trigger] d[j]).0@ != d[i].0@ by {
            assert(d[j] == ctx[j]);
        }
        lemma_context_at(d, i);
        assert(ctx[ctx.len() - 1].0@ != ctx[i].0@);
    }
}

proof fn lemma_context_absent(ctx: Seq<(String, Value)>, key: Seq<char>)
    requires
        forall|i: int| 0 <= i < ctx.len() ==> (#[trigger] ctx[i]).0@ != key,
    ensures
        !context_map(ctx).dom().contains(key),
    decreases ctx.len(),
{
    if ctx.len() > 0 {
        assert forall|i: int| 0 <= i < ctx.drop_last().len() implies (#[trigger] ctx.drop_last()[i]).0@ != key by {
            assert(ctx.drop_last()[i] == ctx[i]);
        }
        lemma_context_absent(ctx.drop_last(), key);
        assert(ctx[ctx.len() - 1].0@ != key);
    }
}

proof fn lemma_context_remove(ctx: Seq<(String, Value)>, i: int)
    requires
        0 <= i < ctx.len(),
    ensures
        context_map(ctx.remove(i)).remove(ctx[i].0@) == context_map(ctx).remove(ctx[i].0@),
    decreases ctx.len(),
{
    let r = ctx.remove(i);
    let d = ctx.drop_last();
    let key = ctx[i].0@;
    if i == ctx.len() - 1 {
        assert(r =~= d);
        assert(context_map(r).remove(key) =~= context_map(ctx).remove(key));
    } else {
        lemma_context_remove(d, i);
        assert(r.drop_last() =~= d.remove(i));
        assert(r.last() == ctx.last());
        let (m, n) = (context_map(d.remove(i)), context_map(d));
        let (k, v) = (ctx.last().0@, ctx.last().1.model());
        assert(m.remove(key) == n.remove(key));
        assert forall|x: Seq<char>| x != key implies #[trigger] m.dom().contains(x) == n.dom().contains(x) && (m.dom().contains(x) ==> m[x] == n[x]) by {
            assert(m.remove(key).dom().contains(x) == m.dom().contains(x));
            assert(n.remove(key).dom().contains(x) == n.dom().contains(x));
            if m.dom().contains(x) {
                assert(m.remove(key)[x] == m[x]);
                assert(n.remove(key)[x] == n[x]);
            }
        }
        assert(m.insert(k, v).remove(key) =~= n.insert(k, v).remove(key));
    }
}

/// A key of `m` has the same value in `n`.
pub open spec fn holds_same(m: Map<Seq<char>, ValueModel>, n: Map<Seq<char>, ValueModel>, key: Seq<char>) -> bool {
    m.dom().contains(key) ==> n.dom().contains(key) && m[key] == n[key]
}

proof fn lemma_context_keys(ctx: Seq<(String, Value)>, key: Seq<char>)
    requires
        context_map(ctx).dom().contains(key),
    ensures
        exists|i: int| 0 <= i < ctx.len() && (#[trigger] ctx[i]).0@ == key,
{
    if forall|i: int| 0 <= i < ctx.len() ==> (#[trigger] ctx[i]).0@ != key {
        lemma_context_absent(ctx, key);
    }
}

impl View for Session {
    type V = Map<Seq<char>, ValueModel>;

    closed spec fn view(&self) -> Map<Seq<char>, ValueModel> {
        context_map(self.ctx@)
    }
}

impl Default for Session {
    fn default() -> (s: Session)
        ensures
            s@ == Map::<Seq<char>, ValueModel>::empty(),
    {
        Session { ctx: Vec::new() }
    }
}

impl Clone for Session {
    fn clone(&self) -> (r: Session)
        ensures
            r@ == self@,
    {
        let mut ctx: Vec<(String, Value)> = Vec::with_capacity(self.ctx.len());
        let mut i: usize = 0;
        proof {
            assert(self.ctx@.take(0) =~= Seq::<(String, Value)>::empty());
        }
        while i < self.ctx.len()
            invariant
                i <= self.ctx@.len(),
                context_map(ctx@) == context_map(self.ctx@.take(i as int)),
            decreases self.ctx@.len() - i,
        {
            let ghost before = ctx@;
            ctx.push((self.ctx[i].0.clone(), self.ctx[i].1.copied()));
            proof {
                assert(ctx@.drop_last() =~= before);
                assert(self.ctx@.take(i + 1).drop_last() =~= self.ctx@.take(i as int));
            }
            i += 1;
        }
        proof {
            assert(self.ctx@.take(i as int) =~= self.ctx@);
        }
        Session { ctx }
    }
}

impl PartialEq for Session {
    fn eq(&self, other: &Session) -> (r: bool) {
        let r = self.within(other) && other.within(self);
        proof {
            if r {
                assert(self@.dom() =~= other@.dom());
                assert(self@ =~= other@);
            }
        }
        r
    }
}

impl vstd::std_specs::cmp::PartialEqSpecImpl for Session {
    open spec fn obeys_eq_spec() -> bool {
        true
    }

    open spec fn eq_spec(&self, other: &Session) -> bool {
        self@ == other@
    }
}

impl Session {
    fn within(&self, other: &Session) -> (r: bool)
        ensures
            r == self@.submap_of(other@),
    {
        let mut i: usize = 0;
        while i < self.ctx.len()
            invariant
                i <= self.ctx@.len(),
                forall|j: int| 0 <= j < i ==> holds_same(self@, other@, (#[trigger] self.ctx@[j]).0@),
            decreases self.ctx@.len() - i,
        {
            let key = self.ctx[i].0.as_str();
            let same = match (self.find(key), other.find(key)) {
                (Some(a), Some(b)) => self.ctx[a].1.same(&other.ctx[b].1),
                (a, _) => a.is_none(),
            };
            assert(same == holds_same(self@, other@, key@));
            if !same {
                return false;
            }
            i += 1;
        }
        proof {
            assert forall|k: Seq<char>| #[trigger] self@.dom().contains(k) implies other@.dom().contains(k) && self@[k] == other@[k] by {
                lemma_context_keys(self.ctx@, k);
            }
        }
        true
    }

    /// An empty context.
    pub fn empty() -> (s: Session)
        ensures
            s@ == Map::<Seq<char>, ValueModel>::empty(),
    {
        Session { ctx: Vec::new() }
    }

    fn find(&self, key: &str) -> (r: Option<usize>)
        ensures
            match r {
                Some(i) => i < self.ctx@.len() && self.ctx@[i as int].0@ == key@ && self@.dom().contains(key@)
                    && self@[key@] == self.ctx@[i as int].1.model(),
                None => !self@.dom().contains(key@),
            },
    {
        let mut i: usize = self.ctx.len();
        while i > 0
            invariant
                i <= self.ctx@.len(),
                forall|j: int| i <= j < self.ctx@.len() ==> (#[trigger] self.ctx@[j]).0@ != key@,
            decreases i,
        {
            i -= 1;
            if same_text(self.ctx[i].0.as_str(), key) {
                proof {
                    lemma_context_at(self.ctx@, i as int);
                }
                return Some(i);
            }
        }
        proof {
            lemma_context_absent(self.ctx@, key@);
        }
        None
    }

    /// Set a variable, replacing what the key held. Calls can be chained.
    pub fn set(&mut self, key: &str, value: Value) -> (r: &mut Session)
        ensures
            r@ == old(self)@.insert(key@, value.model()),
            *final(self) == *final(r),
    {
        self.unset(key);
        let ghost before = self.ctx@;
        self.ctx.push((String::from_str(key), value));
        proof {
            assert(self.ctx@.drop_last() =~= before);
            assert(self@ =~= old(self)@.insert(key@, value.model()));
        }
        self
    }

    /// Bind a membership set. The set may be empty; it must be flat.
    pub fn set_list(&mut self, key: &str, values: Vec<Value>) -> (r: Result<&mut Session>)
        ensures
            match r {
                Ok(s) => {
                    &&& is_flat(values@)
                    &&& s@ == old(self)@.insert(key@, ValueModel::List(models(values@)))
                    &&& *final(self) == *final(s)
                },
                Err(e) => !is_flat(values@) && final(self)@ == old(self)@ && e@ == Fault::TypeMismatch(
                    "a session context list must be flat: nested lists are not supported"@,
                ),
            },
    {
        let mut i: usize = 0;
        while i < values.len()
            invariant
                i <= values@.len(),
                forall|j: int| 0 <= j < i ==> !((#[trigger] values@[j]) is List),
                self@ == old(self)@,
            decreases values@.len() - i,
        {
            if let Value::List(_) = &values[i] {
                return Err(
                    Error::TypeMismatch(
                        String::from_str(
                            "a session context list must be flat: nested lists are not supported",
                        ),
                    ),
                );
            }
            i += 1;
        }
        Ok(self.set(key, Value::List(values)))
    }

    /// The value of a key.
    pub fn get(&self, key: &str) -> (r: Option<&Value>)
        ensures
            match r {
                Some(v) => self@.dom().contains(key@) && v.model() == self@[key@],
                None => !self@.dom().contains(key@),
            },
    {
        match self.find(key) {
            Some(i) => Some(&self.ctx[i].1),
            None => None,
        }
    }

    /// Remove one key, returning its previous value.
    pub fn unset(&mut self, key: &str) -> (r: Option<Value>)
        ensures
            final(self)@ == old(self)@.remove(key@),
            match r {
                Some(v) => old(self)@.dom().contains(key@) && v.model() == old(self)@[key@],
                None => !old(self)@.dom().contains(key@),
            },
    {
        let at = self.find(key);
        let mut next: Option<usize> = at;
        let mut found: Option<Value> = None;
        while next.is_some()
            invariant
                self@.remove(key@) == old(self)@.remove(key@),
                match next {
                    Some(i) => i < self.ctx@.len() && self.ctx@[i as int].0@ == key@,
                    None => !self@.dom().contains(key@),
                },
                match found {
                    Some(v) => old(self)@.dom().contains(key@) && v.model() == old(self)@[key@],
                    None => next == at && self@ == old(self)@,
                },
                match at {
                    Some(i) => i < old(self).ctx@.len() && old(self)@.dom().contains(key@) && old(self)@[key@] == old(self).ctx@[i as int].1.model(),
                    None => !old(self)@.dom().contains(key@),
                },
                found is None ==> self.ctx@ == old(self).ctx@,
            decreases self.ctx@.len(),
        {
            let i: usize = next.unwrap();
            proof {
                lemma_context_remove(self.ctx@, i as int);
            }
            let (_, v) = self.ctx.remove(i);
            if found.is_none() {
                found = Some(v);
            }
            next = self.find(key);
        }
        proof {
            assert(self@ =~= self@.remove(key@));
        }
        found
    }

    /// Clear all context.
    pub fn reset(&mut self)
        ensures
            final(self)@ == Map::<Seq<char>, ValueModel>::empty(),
    {
        self.ctx.clear();
    }

    /// Whether no key is set.
    pub fn is_empty(&self) -> (r: bool)
        ensures
            r == (self@ == Map::<Seq<char>, ValueModel>::empty()),
    {
        proof {
            if self.ctx@.len() > 0 {
                assert(self@.dom().contains(self.ctx@.last().0@));
            }
        }
        self.ctx.len() == 0
    }
}

/// What a statement gets for one context variable: its value, which must be
/// there, not NULL, and fit the type that the statement asks for.
pub open spec fn context_value(
    m: Map<Seq<char>, ValueModel>,
    key: Seq<char>,
    ty: Option<ColumnType>,
) -> std::result::Result<ValueModel, Fault> {
    if !m.dom().contains(key) {
        Err(
            Fault::Bind(
                "session context '"@ + key + "' is required by the statement but is not set"@,
            ),
        )
    } else if m[key] == ValueModel::Null {
        Err(
            Fault::TypeMismatch(
                "session context '"@ + key + "' is NULL; a concrete value is required"@,
            ),
        )
    } else if ty is Some && !value_fits(m[key], ty->Some_0) {
        Err(
            Fault::TypeMismatch(
                "session context '"@ + key + "' is "@ + value_type_text(m[key])
                    + ", statement requires "@ + type_text(ty->Some_0),
            ),
        )
    } else {
        Ok(m[key])
    }
}

/// The values of the context variables from `p` on.
pub open spec fn context_values(
    m: Map<Seq<char>, ValueModel>,
    keys: Seq<String>,
    types: Seq<Option<ColumnType>>,
    p: int,
) -> std::result::Result<Seq<ValueModel>, Fault>
    decreases keys.len() - p,
{
    if p >= keys.len() {
        Ok(Seq::empty())
    } else {
        match context_value(m, keys[p]@, types[types.len() - keys.len() + p]) {
            Err(f) => Err(f),
            Ok(v) => match context_values(m, keys, types, p + 1) {
                Err(f) => Err(f),
                Ok(rest) => Ok(seq![v] + rest),
            },
        }
    }
}

/// The full parameter list of a statement: what the caller gave, which must
/// be exactly the caller's share, then the context variables.
pub open spec fn resolved_params(
    plan: CompiledPlan,
    user: Seq<ValueModel>,
    m: Map<Seq<char>, ValueModel>,
) -> std::result::Result<Seq<ValueModel>, Fault> {
    let n_user = plan.n_params - plan.context_keys@.len();
    if user.len() != n_user {
        Err(Fault::WrongParamCount { expected: n_user, got: user.len() as int })
    } else {
        match context_values(m, plan.context_keys@, plan.param_types@, 0) {
            Err(f) => Err(f),
            Ok(vs) => Ok(user + vs),
        }
    }
}

/// Build the executor's parameter list: the caller's parameters followed by
/// the statement's context variables, resolved from `session`. A missing key,
/// a NULL or a misfit is a hard error.
pub fn resolve_params(plan: &CompiledPlan, user_params: &[Value], session: &Session) -> (r: Result<Vec<Value>>)
    requires
        plan.params_laid_out(),
    ensures
        match r {
            Ok(vs) => resolved_params(*plan, models(user_params@), session@) == Ok::<Seq<ValueModel>, Fault>(models(vs@)),
            Err(e) => resolved_params(*plan, models(user_params@), session@) == Err::<Seq<ValueModel>, Fault>(e@),
        },
{
    let n_ctx: usize = plan.context_keys.len();
    let n_user: usize = plan.n_params as usize - n_ctx;
    if user_params.len() != n_user {
        return Err(Error::WrongParamCount { expected: n_user as u64, got: user_params.len() as u64 });
    }
    let mut full = copy_values(user_params);
    let ghost user = models(user_params@);
    let ghost keys = plan.context_keys@;
    let ghost types = plan.param_types@;
    let ghost whole = context_values(session@, keys, types, 0);
    let ghost mut done: Seq<ValueModel> = Seq::empty();
    let mut p: usize = 0;
    proof {
        assert(models(full@) =~= user + done);
        assert forall|rest: Seq<ValueModel>| #[trigger] (Seq::<ValueModel>::empty() + rest) == rest by {
            assert(Seq::<ValueModel>::empty() + rest =~= rest);
        }
    }
    while p < n_ctx
        invariant
            p <= n_ctx,
            n_ctx == keys.len(),
            keys == plan.context_keys@,
            types == plan.param_types@,
            types.len() == plan.n_params,
            n_user + n_ctx == plan.n_params,
            user.len() == n_user,
            user == models(user_params@),
            models(full@) == user + done,
            resolved_params(*plan, user, session@) == (match whole {
                Err(f) => Err::<Seq<ValueModel>, Fault>(f),
                Ok(vs) => Ok(user + vs),
            }),
            whole == (match context_values(session@, keys, types, p as int) {
                Err(f) => Err::<Seq<ValueModel>, Fault>(f),
                Ok(rest) => Ok(done + rest),
            }),
        decreases n_ctx - p,
    {
        let key = plan.context_keys[p].as_str();
        let value = match session.get(key) {
            None => {
                return Err(
                    Error::Bind(
                        quoted_in(
                            "session context '",
                            key,
                            "' is required by the statement but is not set",
                        ),
                    ),
                );
            },
            Some(v) => v,
        };
        if value.is_null() {
            return Err(
                Error::TypeMismatch(
                    quoted_in("session context '", key, "' is NULL; a concrete value is required"),
                ),
            );
        }
        if let Some(t) = plan.param_types[n_user + p] {
            if !value.fits(t) {
                let mut m = quoted_in("session context '", key, "' is ");
                m.append(value.kind_name());
                m.append(", statement requires ");
                m.append(t.name());
                return Err(Error::TypeMismatch(m));
            }
        }
        let ghost prev = full@;
        let ghost v = value.model();
        full.push(value.copied());
        proof {
            assert(models(full@) =~= models(prev).push(v));
            assert(models(full@) =~= user + done.push(v));
            match context_values(session@, keys, types, p + 1) {
                Ok(rest) => {
                    assert(done + (seq![v] + rest) =~= done.push(v) + rest);
                },
                Err(_) => {},
            }
            done = done.push(v);
        }
        p += 1;
    }
    proof {
        assert(done + Seq::<ValueModel>::empty() =~= done);
    }
    Ok(full)
}

/// No element is itself a list.
pub open spec fn is_flat(values: Seq<Value>) -> bool {
    forall|i: int| 0 <= i < values.len() ==> !((#[trigger] values[i]) is List)
}

// ---------------------------------------------------------------- laws

proof fn lemma_context_values(m: Map<Seq<char>, ValueModel>, keys: Seq<String>, types: Seq<Option<ColumnType>>, p: int)
    requires
        0 <= p <= keys.len() <= types.len(),
    ensures
        context_values(m, keys, types, p) matches Ok(vs) ==> vs.len() == keys.len() - p && forall|q: int|
            p <= q < keys.len() ==> context_value(m, (#[trigger] keys[q])@, types[types.len() - keys.len() + q]) == Ok::<ValueModel, Fault>(
                vs[q - p],
            ),
        (forall|q: int| p <= q < keys.len() ==> context_value(m, (#[trigger] keys[q])@, types[types.len() - keys.len() + q]) is Ok)
            ==> context_values(m, keys, types, p) is Ok,
        context_values(m, keys, types, p) matches Err(f) ==> exists|q: int|
            p <= q < keys.len() && context_value(m, (#[trigger] keys[q])@, types[types.len() - keys.len() + q]) == Err::<ValueModel, Fault>(
                f,
            ) && forall|o: int| p <= o < q ==> context_value(m, (#[trigger] keys[o])@, types[types.len() - keys.len() + o]) is Ok,
    decreases keys.len() - p,
{
    if p < keys.len() {
        lemma_context_values(m, keys, types, p + 1);
        match context_value(m, keys[p]@, types[types.len() - keys.len() + p]) {
            Ok(v) => {
                match context_values(m, keys, types, p + 1) {
                    Ok(rest) => {
                        let vs = seq![v] + rest;
                        assert forall|q: int| p <= q < keys.len() implies context_value(
                            m,
                            (#[trigger] keys[q])@,
                            types[types.len() - keys.len() + q],
                        ) == Ok::<ValueModel, Fault>(vs[q - p]) by {
                            if q > p {
                                assert(vs[q - p] == rest[q - p - 1]);
                            }
                        }
                    },
                    Err(_) => {},
                }
            },
            Err(_) => {},
        }
    }
}

/// A statement sees exactly what was bound to it: the caller's values in the
/// first slots, in the caller's order, and behind them, in the slot of each
/// context key, what the session holds under that very key. What it sees there
/// is never NULL.
pub proof fn law_params_in_their_slots(plan: CompiledPlan, user: Seq<ValueModel>, m: Map<Seq<char>, ValueModel>, vs: Seq<ValueModel>)
    requires
        plan.params_laid_out(),
        resolved_params(plan, user, m) == Ok::<Seq<ValueModel>, Fault>(vs),
    ensures
        vs.len() == plan.n_params,
        user.len() + plan.context_keys@.len() == plan.n_params,
        forall|i: int| 0 <= i < user.len() ==> #[trigger] vs[i] == user[i],
        forall|p: int|
            0 <= p < plan.context_keys@.len() ==> m.dom().contains((#[trigger] plan.context_keys@[p])@) && vs[user.len() + p]
                == m[plan.context_keys@[p]@] && vs[user.len() + p] != ValueModel::Null,
{
    let keys = plan.context_keys@;
    lemma_context_values(m, keys, plan.param_types@, 0);
    let rest = context_values(m, keys, plan.param_types@, 0)->Ok_0;
    assert forall|p: int| 0 <= p < keys.len() implies m.dom().contains((#[trigger] keys[p])@) && vs[user.len() + p] == m[keys[p]@] && vs[user.len()
        + p] != ValueModel::Null by {
        assert(vs[user.len() + p] == rest[p]);
        assert(context_value(m, keys[p]@, plan.param_types@[plan.param_types@.len() - keys.len() + p]) == Ok::<ValueModel, Fault>(rest[p]));
    }
}

/// A statement runs only with its whole context: it resolves exactly where the
/// caller gave the number of values that is the caller's, and every context
/// key is set to something that is not NULL and may stand in its slot.
pub proof fn law_context_is_required(plan: CompiledPlan, user: Seq<ValueModel>, m: Map<Seq<char>, ValueModel>)
    requires
        plan.params_laid_out(),
    ensures
        resolved_params(plan, user, m) is Ok <==> user.len() + plan.context_keys@.len() == plan.n_params && forall|p: int|
            0 <= p < plan.context_keys@.len() ==> {
                let held = m[(#[trigger] plan.context_keys@[p])@];
                let asked = plan.param_types@[user.len() + p];
                m.dom().contains(plan.context_keys@[p]@) && held != ValueModel::Null && (asked is None || value_fits(held, asked->Some_0))
            },
{
    let keys = plan.context_keys@;
    let types = plan.param_types@;
    lemma_context_values(m, keys, types, 0);
    if user.len() + keys.len() == plan.n_params {
        let all = context_values(m, keys, types, 0);
        if all is Ok {
            assert forall|p: int| 0 <= p < keys.len() implies {
                let held = m[(#[trigger] keys[p])@];
                let asked = types[user.len() + p];
                m.dom().contains(keys[p]@) && held != ValueModel::Null && (asked is None || value_fits(held, asked->Some_0))
            } by {
                assert(context_value(m, keys[p]@, types[types.len() - keys.len() + p]) is Ok);
            }
        } else {
            let q = choose|q: int|
                0 <= q < keys.len() && context_value(m, (#[trigger] keys[q])@, types[types.len() - keys.len() + q]) == Err::<
                    ValueModel,
                    Fault,
                >(all->Err_0) && forall|o: int|
                    0 <= o < q ==> context_value(m, (#[trigger] keys[o])@, types[types.len() - keys.len() + o]) is Ok;
            assert(types.len() - keys.len() + q == user.len() + q);
        }
    }
}

/// A session that lacks a key that the statement reads, the first such key, is
/// told which: the refusal names it.
pub proof fn law_first_unset_key_is_named(plan: CompiledPlan, user: Seq<ValueModel>, m: Map<Seq<char>, ValueModel>, p: int)
    requires
        plan.params_laid_out(),
        user.len() + plan.context_keys@.len() == plan.n_params,
        0 <= p < plan.context_keys@.len(),
        !m.dom().contains(plan.context_keys@[p]@),
        forall|q: int|
            0 <= q < p ==> {
                let held = m[(#[trigger] plan.context_keys@[q])@];
                let asked = plan.param_types@[user.len() + q];
                m.dom().contains(plan.context_keys@[q]@) && held != ValueModel::Null && (asked is None || value_fits(held, asked->Some_0))
            },
    ensures
        resolved_params(plan, user, m) matches Err(Fault::Bind(why)) && exists|a: Seq<char>, b: Seq<char>|
            why == #[trigger] (a + plan.context_keys@[p]@ + b),
{
    let keys = plan.context_keys@;
    let types = plan.param_types@;
    lemma_context_values(m, keys, types, 0);
    let all = context_values(m, keys, types, 0);
    if all is Ok {
        assert(context_value(m, keys[p]@, types[types.len() - keys.len() + p]) is Ok);
    } else {
        let q = choose|q: int|
            0 <= q < keys.len() && context_value(m, (#[trigger] keys[q])@, types[types.len() - keys.len() + q]) == Err::<ValueModel, Fault>(
                all->Err_0,
            ) && forall|o: int| 0 <= o < q ==> context_value(m, (#[trigger] keys[o])@, types[types.len() - keys.len() + o]) is Ok;
        assert(types.len() - keys.len() + q == user.len() + q);
        if p < q {
            assert(context_value(m, keys[p]@, types[types.len() - keys.len() + p]) is Ok);
        }
        assert(q == p);
        let (a, b) = ("session context '"@, "' is required by the statement but is not set"@);
        assert(all->Err_0 == Fault::Bind(a + keys[p]@ + b));
    }
}

} // verus!
