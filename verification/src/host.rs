//! The programmatic surface around an engine: variables by layer, functions
//! registered by name, names that may be registered, and what a programmatic
//! run reports.

use crate::convert;
use crate::engine;
use crate::engine::{Engine, EngineView};
use crate::error;
use crate::error::{ErrorView, ShellError};
use crate::expr::{Scope, ScopeSeq};
use crate::lex;
use crate::mux::maps;
use crate::text;
use crate::value;
use crate::value::{Value, ValueView};
use vstd::prelude::*;

verus! {

broadcast use crate::value::value_view_cases;

/// Which layer a variable call targets.
#[derive(Clone, Copy, Debug, PartialEq, Eq, Structural)]
pub enum VarTarget {
    Host,
    Session(u32),
}

/// The optional `{ scope, session }` argument of a variable call.
pub struct VarOptions {
    pub scope: Option<String>,
    pub session: Option<u32>,
}

/// The layer that some options name.
///
/// Absent means host. An unrecognised `scope` is an error rather than a
/// fallback to host: a typo that silently wrote to the wrong layer would be
/// found later, by someone reading a value that was never set where they
/// looked.
pub open spec fn target_of(opts: Option<VarOptions>) -> Result<VarTarget, Seq<char>> {
    match opts {
        None => Ok(VarTarget::Host),
        Some(o) => match o.scope {
            None => Ok(VarTarget::Host),
            Some(scope) => if scope@ == "host"@ {
                Ok(VarTarget::Host)
            } else if scope@ == "session"@ {
                match o.session {
                    Some(id) => Ok(VarTarget::Session(id)),
                    None => Err(
                        "{ scope: 'session' } needs a `session` id from snapshot.sessions"@,
                    ),
                }
            } else {
                Err("unknown scope `"@ + scope@ + "`: expected 'host' or 'session'"@)
            },
        },
    }
}

pub fn var_target(opts: &Option<VarOptions>) -> (r: Result<VarTarget, String>)
    ensures
        match target_of(*opts) {
            Ok(t) => r == Ok::<VarTarget, String>(t),
            Err(msg) => r matches Err(e) && e@ == msg,
        },
{
    match opts {
        None => Ok(VarTarget::Host),
        Some(o) => match &o.scope {
            None => Ok(VarTarget::Host),
            Some(scope) => {
                if text::same_text(scope.as_str(), "host") {
                    Ok(VarTarget::Host)
                } else if text::same_text(scope.as_str(), "session") {
                    match o.session {
                        Some(id) => Ok(VarTarget::Session(id)),
                        None => Err(
                            "{ scope: 'session' } needs a `session` id from snapshot.sessions".to_owned(),
                        ),
                    }
                } else {
                    Err(
                        text::around(
                            "unknown scope `",
                            scope.as_str(),
                            "`: expected 'host' or 'session'",
                        ),
                    )
                }
            },
        },
    }
}

/// Why a layer cannot be reached, if it cannot: its session does not exist.
pub open spec fn layer_fault(e: EngineView, target: VarTarget) -> Option<ErrorView> {
    match target {
        VarTarget::Host => None,
        VarTarget::Session(id) => if maps::key_at(e.mux.sessions, id) is Some {
            None
        } else {
            Some(engine::no_session(id))
        },
    }
}

/// The variables of a layer: one layer, never a merged view.
pub open spec fn layer(e: EngineView, target: VarTarget) -> ScopeSeq {
    match target {
        VarTarget::Host => e.host_vars,
        VarTarget::Session(id) => engine::vars_of(e, id),
    }
}

/// The engine with other variables in a layer.
pub open spec fn with_layer(e: EngineView, target: VarTarget, vars: ScopeSeq) -> EngineView {
    match target {
        VarTarget::Host => EngineView { host_vars: vars, ..e },
        VarTarget::Session(id) => engine::with_vars(e, id, vars),
    }
}

/// A batch of variables: each name with its value, or with why the host's value
/// has no counterpart.
pub type Batch = Vec<(String, Result<Value, String>)>;

/// The first entry of a batch that cannot be set, as its message.
pub open spec fn batch_fault(batch: Seq<(String, Result<Value, String>)>) -> Option<Seq<char>>
    decreases batch.len(),
{
    if batch.len() == 0 {
        None
    } else {
        match batch_fault(batch.drop_last()) {
            Some(msg) => Some(msg),
            None => entry_fault(batch.last()),
        }
    }
}

pub open spec fn entry_fault(entry: (String, Result<Value, String>)) -> Option<Seq<char>> {
    if !lex::valid_var_name(entry.0@) {
        Some(engine::bad_name(entry.0@).msg)
    } else {
        match entry.1 {
            Ok(_) => None,
            Err(msg) => Some("`"@ + entry.0@ + "`: "@ + msg@),
        }
    }
}

/// A layer with a batch set in it, the later of two values of a name winning.
pub open spec fn batch_set(vars: ScopeSeq, batch: Seq<(String, Result<Value, String>)>) -> ScopeSeq
    decreases batch.len(),
{
    if batch.len() == 0 {
        vars
    } else {
        match batch.last().1 {
            Ok(v) => value::inserted(batch_set(vars, batch.drop_last()), batch.last().0@, v@),
            Err(_) => batch_set(vars, batch.drop_last()),
        }
    }
}

proof fn batch_fault_stays(batch: Seq<(String, Result<Value, String>)>, n: int)
    requires
        0 <= n <= batch.len(),
        batch_fault(batch.take(n)) is Some,
    ensures
        batch_fault(batch) == batch_fault(batch.take(n)),
    decreases batch.len() - n,
{
    if n < batch.len() {
        assert(batch.take(n + 1).drop_last() =~= batch.take(n));
        batch_fault_stays(batch, n + 1);
    } else {
        assert(batch.take(n) =~= batch);
    }
}

proof fn faultless_entries(batch: Seq<(String, Result<Value, String>)>, i: int)
    requires
        batch_fault(batch) is None,
        0 <= i < batch.len(),
    ensures
        entry_fault(batch[i]) is None,
    decreases batch.len(),
{
    if i < batch.len() - 1 {
        faultless_entries(batch.drop_last(), i);
        assert(batch.drop_last()[i] == batch[i]);
    }
}

/// What a batch set is read back: a name that the batch sets has its last value,
/// and every other name keeps its own.
pub proof fn a_batch_is_read_back(
    vars: ScopeSeq,
    batch: Seq<(String, Result<Value, String>)>,
    name: Seq<char>,
)
    requires
        value::names_distinct(vars),
        batch_fault(batch) is None,
    ensures
        value::names_distinct(batch_set(vars, batch)),
        value::lookup(batch_set(vars, batch), name) == match last_of(batch, name) {
            Some(v) => Some(v),
            None => value::lookup(vars, name),
        },
    decreases batch.len(),
{
    if batch.len() > 0 {
        let rest = batch.drop_last();
        a_batch_is_read_back(vars, rest, name);
        faultless_entries(batch, batch.len() - 1);
        let key = batch.last().0@;
        let v = batch.last().1->Ok_0@;
        let other = if name == key {
            key.push('_')
        } else {
            name
        };
        assert(key.push('_').len() != key.len());
        value::fields_behave_as_a_map(batch_set(vars, rest), key, v, other);
    }
}

/// The last value that a batch gives a name.
pub open spec fn last_of(batch: Seq<(String, Result<Value, String>)>, name: Seq<char>) -> Option<
    ValueView,
>
    decreases batch.len(),
{
    if batch.len() == 0 {
        None
    } else if batch.last().0@ == name {
        match batch.last().1 {
            Ok(v) => Some(v@),
            Err(_) => None,
        }
    } else {
        last_of(batch.drop_last(), name)
    }
}

/// Are the variables sorted by name?
pub open spec fn sorted_vars(vars: ScopeSeq) -> bool {
    forall|i: int, j: int|
        0 <= i < j < vars.len() ==> !text::text_after((#[trigger] vars[i]).0, (#[trigger] vars[j]).0)
}

pub open spec fn pairs_view(pairs: Seq<(String, Value)>) -> ScopeSeq {
    pairs.map_values(|p: (String, Value)| (p.0@, p.1@))
}

/// The variables of a scope, sorted by name.
fn sorted_pairs(scope: &Scope) -> (r: Vec<(String, Value)>)
    ensures
        sorted_vars(pairs_view(r@)),
        pairs_view(r@).to_multiset() == scope@.to_multiset(),
{
    let n: usize = scope.len();
    let ghost all = scope@;
    let mut out: Vec<(String, Value)> = Vec::new();
    let mut i: usize = 0;
    proof {
        assert(pairs_view(out@) =~= Seq::empty());
        assert(all.take(0) =~= Seq::empty());
    }
    while i < n
        invariant
            i <= n,
            n == all.len(),
            all == scope@,
            sorted_vars(pairs_view(out@)),
            pairs_view(out@).to_multiset() == all.take(i as int).to_multiset(),
        decreases n - i,
    {
        let name = scope.name(i).clone();
        let v = scope.at(i).clone();
        let ghost was = pairs_view(out@);
        let ghost x = (name@, v@);
        let mut p: usize = out.len();
        while p > 0 && text::is_after(out[p - 1].0.as_str(), name.as_str())
            invariant
                p <= out@.len(),
                was == pairs_view(out@),
                x.0 == name@,
                forall|k: int| p <= k < was.len() ==> text::text_after((#[trigger] was[k]).0, x.0),
            decreases p,
        {
            p = p - 1;
        }
        proof {
            inserting_keeps_order(was, p as int, x);
        }
        out.insert(p, (name, v));
        proof {
            broadcast use vstd::seq_lib::group_to_multiset_ensures;

            assert(pairs_view(out@) =~= was.insert(p as int, x));
            assert(all.take(i + 1) =~= all.take(i as int).push(x));
        }
        i = i + 1;
    }
    proof {
        assert(all.take(n as int) =~= all);
    }
    out
}

proof fn inserting_keeps_order(sorted: ScopeSeq, p: int, x: (Seq<char>, ValueView))
    requires
        sorted_vars(sorted),
        0 <= p <= sorted.len(),
        forall|k: int| p <= k < sorted.len() ==> text::text_after((#[trigger] sorted[k]).0, x.0),
        p > 0 ==> !text::text_after(sorted[p - 1].0, x.0),
    ensures
        sorted_vars(sorted.insert(p, x)),
{
    let out = sorted.insert(p, x);
    assert forall|i: int, j: int| 0 <= i < j < out.len() implies !text::text_after(
        (#[trigger] out[i]).0,
        (#[trigger] out[j]).0,
    ) by {
        if i < p {
            assert(out[i] == sorted[i]);
            if j < p {
                assert(out[j] == sorted[j]);
            } else if j == p {
                if i < p - 1 {
                    assert(!text::text_after(sorted[i].0, sorted[p - 1].0));
                    text::text_after_is_an_order(sorted[i].0, sorted[p - 1].0, x.0);
                }
            } else {
                assert(out[j] == sorted[j - 1]);
            }
        } else if i == p {
            assert(out[j] == sorted[j - 1]);
            text::text_after_is_an_order(x.0, sorted[j - 1].0, x.0);
        } else {
            assert(out[i] == sorted[i - 1]);
            assert(out[j] == sorted[j - 1]);
        }
    }
}

impl Engine {
    /// Inject a value into a layer.
    pub fn set_variable(&mut self, name: &str, v: Value, target: VarTarget) -> (r: Result<
        (),
        ShellError,
    >)
        requires
            old(self)@.wf(),
        ensures
            final(self)@.wf(),
            if !lex::valid_var_name(name@) {
                (r matches Err(e) && e@ == engine::bad_name(name@)) && final(self)@ == old(self)@
            } else {
                match layer_fault(old(self)@, target) {
                    Some(fault) => (r matches Err(e) && e@ == fault) && final(self)@ == old(self)@,
                    None => r is Ok && final(self)@ == with_layer(
                        old(self)@,
                        target,
                        value::inserted(layer(old(self)@, target), name@, v@),
                    ),
                }
            },
    {
        match target {
            VarTarget::Host => self.set_host_var(name, v),
            VarTarget::Session(id) => self.set_session_var(id, name, v),
        }
    }

    /// Set several variables at once. Names not mentioned are left alone.
    ///
    /// Every name is validated and every value converted before anything is
    /// applied, so one bad entry leaves the previous state untouched. A partial
    /// apply is the worst outcome for a host synchronising editor state: some
    /// values land, one stays stale, and the next command runs against a mix
    /// that looks plausible.
    pub fn set_variables(&mut self, batch: &Batch, target: VarTarget) -> (r: Result<(), String>)
        requires
            old(self)@.wf(),
        ensures
            final(self)@.wf(),
            match batch_fault(batch@) {
                Some(msg) => (r matches Err(e) && e@ == msg) && final(self)@ == old(self)@,
                None => match layer_fault(old(self)@, target) {
                    Some(fault) => (r matches Err(e) && e@ == fault.msg) && final(self)@ == old(
                        self,
                    )@,
                    None => r is Ok && final(self)@ == with_layer(
                        old(self)@,
                        target,
                        batch_set(layer(old(self)@, target), batch@),
                    ),
                },
            },
    {
        if let Some(msg) = find_fault(batch) {
            return Err(msg);
        }
        if let VarTarget::Session(id) = target {
            if let Err(e) = self.session_vars(id) {
                return Err(e.msg);
            }
        }
        let ghost was = self@;
        let ghost vars = layer(was, target);
        let mut i: usize = 0;
        proof {
            setting_the_same_layer(was, target);
            assert(batch@.take(0) =~= Seq::empty());
        }
        while i < batch.len()
            invariant
                i <= batch@.len(),
                self@.wf(),
                layer_fault(was, target) is None,
                vars == layer(was, target),
                batch_fault(batch@) is None,
                self@ == with_layer(was, target, batch_set(vars, batch@.take(i as int))),
            decreases batch@.len() - i,
        {
            proof {
                faultless_entries(batch@, i as int);
                assert(batch@.take(i + 1).drop_last() =~= batch@.take(i as int));
                layers_are_read_back(was, target, batch_set(vars, batch@.take(i as int)));
            }
            if let Ok(v) = &batch[i].1 {
                let v = v.clone();
                let ghost vv = v@;
                let _ = self.set_variable(batch[i].0.as_str(), v, target);
                proof {
                    layers_replace_each_other(
                        was,
                        target,
                        batch_set(vars, batch@.take(i as int)),
                        batch_set(vars, batch@.take(i + 1)),
                    );
                }
            }
            i = i + 1;
        }
        proof {
            assert(batch@.take(batch@.len() as int) =~= batch@);
        }
        Ok(())
    }

    /// Remove a variable from a layer. Returns whether it was set: a name that
    /// is not set in a session that does not exist is, truthfully, not set.
    pub fn unset_variable(&mut self, name: &str, target: VarTarget) -> (r: bool)
        requires
            old(self)@.wf(),
        ensures
            final(self)@.wf(),
            if layer_fault(old(self)@, target) is None {
                r == (value::lookup(layer(old(self)@, target), name@) is Some) && final(self)@
                    == with_layer(
                    old(self)@,
                    target,
                    value::removed(layer(old(self)@, target), name@),
                )
            } else {
                !r && final(self)@ == old(self)@
            },
    {
        match target {
            VarTarget::Host => self.unset_host_var(name),
            VarTarget::Session(id) => match self.unset_session_var(id, name) {
                Ok(found) => found,
                Err(_) => false,
            },
        }
    }

    /// The value of a variable in a layer. A layer that does not exist is an
    /// error, not an unset variable.
    pub fn get_variable(&self, name: &str, target: VarTarget) -> (r: Result<
        Option<&Value>,
        ShellError,
    >)
        ensures
            match r {
                Ok(Some(v)) => layer_fault(self@, target) is None && value::lookup(layer(self@, target), name@)
                    == Some(v@),
                Ok(None) => layer_fault(self@, target) is None && value::lookup(layer(self@, target), name@)
                    is None,
                Err(e) => layer_fault(self@, target) == Some(e@),
            },
    {
        match target {
            VarTarget::Host => Ok(self.host_var(name)),
            VarTarget::Session(id) => self.session_var(id, name),
        }
    }

    /// Everything in a layer, sorted by name, so that the same state always
    /// reads the same.
    pub fn variables(&self, target: VarTarget) -> (r: Result<Vec<(String, Value)>, ShellError>)
        ensures
            match r {
                Ok(pairs) => layer_fault(self@, target) is None && sorted_vars(pairs_view(pairs@))
                    && pairs_view(pairs@).to_multiset() == layer(self@, target).to_multiset(),
                Err(e) => layer_fault(self@, target) == Some(e@),
            },
    {
        match target {
            VarTarget::Host => Ok(sorted_pairs(self.host_vars())),
            VarTarget::Session(id) => match self.session_vars(id) {
                Ok(vars) => Ok(sorted_pairs(vars)),
                Err(e) => Err(e),
            },
        }
    }
}

proof fn setting_the_same_layer(e: EngineView, target: VarTarget)
    requires
        layer_fault(e, target) is None,
    ensures
        with_layer(e, target, layer(e, target)) == e,
{
    if let VarTarget::Session(id) = target {
        maps::key_at_is_first(e.mux.sessions, id);
        assert(with_layer(e, target, layer(e, target)).mux.sessions =~= e.mux.sessions);
        assert(with_layer(e, target, layer(e, target)) =~= e);
    }
}

/// A layer that was set is the one that is read.
pub proof fn layers_are_read_back(e: EngineView, target: VarTarget, vars: ScopeSeq)
    requires
        layer_fault(e, target) is None,
    ensures
        layer_fault(with_layer(e, target, vars), target) is None,
        layer(with_layer(e, target, vars), target) == vars,
{
    if let VarTarget::Session(id) = target {
        maps::key_at_is_first(e.mux.sessions, id);
        maps::key_at_is_first(with_layer(e, target, vars).mux.sessions, id);
        let i = maps::key_at(e.mux.sessions, id)->0;
        let after = with_layer(e, target, vars).mux.sessions;
        assert(after[i].0 == id);
        let j = maps::key_at(after, id)->0;
        assert(after[j].0 == id);
        if j < i {
            assert(e.mux.sessions[j] == after[j]);
        }
    }
}

proof fn layers_replace_each_other(
    e: EngineView,
    target: VarTarget,
    first: ScopeSeq,
    second: ScopeSeq,
)
    requires
        layer_fault(e, target) is None,
    ensures
        with_layer(with_layer(e, target, first), target, second) == with_layer(e, target, second),
{
    if let VarTarget::Session(id) = target {
        maps::key_at_is_first(e.mux.sessions, id);
        let once = with_layer(e, target, first);
        maps::key_at_is_first(once.mux.sessions, id);
        let i = maps::key_at(e.mux.sessions, id)->0;
        let j = maps::key_at(once.mux.sessions, id)->0;
        assert(once.mux.sessions[i].0 == id);
        assert(once.mux.sessions[j].0 == id);
        if j < i {
            assert(e.mux.sessions[j] == once.mux.sessions[j]);
        }
        let twice = with_layer(once, target, second);
        assert(twice.mux.sessions =~= with_layer(e, target, second).mux.sessions);
        assert(twice =~= with_layer(e, target, second));
    }
}

fn find_fault(batch: &Batch) -> (r: Option<String>)
    ensures
        error::opt_text(r) == batch_fault(batch@),
{
    let mut i: usize = 0;
    proof {
        assert(batch@.take(0) =~= Seq::empty());
    }
    while i < batch.len()
        invariant
            i <= batch@.len(),
            batch_fault(batch@.take(i as int)) is None,
        decreases batch@.len() - i,
    {
        let name = batch[i].0.as_str();
        proof {
            assert(batch@.take(i + 1).drop_last() =~= batch@.take(i as int));
        }
        if !lex::is_valid_var_name(name) {
            proof {
                batch_fault_stays(batch@, i + 1);
            }
            return Some(
                text::around(
                    "`",
                    name,
                    "` is not a valid variable name: use letters, digits and `_`",
                ),
            );
        }
        if let Err(msg) = &batch[i].1 {
            let mut full = text::around("`", name, "`: ");
            full.append(msg.as_str());
            proof {
                batch_fault_stays(batch@, i + 1);
            }
            return Some(full);
        }
        i = i + 1;
    }
    proof {
        assert(batch@.take(batch@.len() as int) =~= batch@);
    }
    None
}

/// Why a name may not be registered as a function, if it may not.
pub open spec fn fn_name_fault(name: Seq<char>) -> Option<Seq<char>> {
    if text::trimmed(name).len() == 0 {
        Some("function name must not be empty"@)
    } else if name[0] == '@' {
        Some("register the bare name; `@` is only used at the call site"@)
    } else {
        None
    }
}

/// Why a name may not be registered as a command, if it may not.
pub open spec fn command_name_fault(name: Seq<char>) -> Option<Seq<char>> {
    if text::trimmed(name).len() == 0 {
        Some("command name must not be empty"@)
    } else {
        None
    }
}

pub fn check_command_name(name: &str) -> (r: Option<String>)
    ensures
        error::opt_text(r) == command_name_fault(name@),
{
    let t = text::trim(name);
    if text::to_chars(t.as_str()).len() == 0 {
        Some("command name must not be empty".to_owned())
    } else {
        None
    }
}

/// Functions registered by name, each a function of the host.
pub struct FnTable {
    pub entries: Vec<(String, u64)>,
}

pub type FnSeq = Seq<(Seq<char>, u64)>;

impl View for FnTable {
    type V = FnSeq;

    open spec fn view(&self) -> FnSeq {
        self.entries@.map_values(|e: (String, u64)| (e.0@, e.1))
    }
}

/// Where a function is registered.
pub open spec fn fn_at(fns: FnSeq, name: Seq<char>) -> Option<int>
    decreases fns.len(),
{
    if fns.len() == 0 {
        None
    } else if fns.last().0 == name {
        Some(fns.len() - 1)
    } else {
        fn_at(fns.drop_last(), name)
    }
}

pub open spec fn fn_names(fns: FnSeq) -> Seq<Seq<char>> {
    fns.map_values(|f: (Seq<char>, u64)| f.0)
}

/// What `@name` answers where no function of that name is registered.
pub open spec fn fn_missing(fns: FnSeq, name: Seq<char>) -> Seq<char> {
    let head = "no registered function `@"@ + name;
    match error::suggestion(name, fn_names(fns)) {
        Some(s) => head + "` — did you mean `@"@ + s + "`?"@,
        None => if fns.len() == 0 {
            head + "`; register one with bt.registerFn(name, fn)"@
        } else {
            head + "`; registered: "@ + text::joined(fn_names(fns), ", "@)
        },
    }
}

pub open spec fn fn_found(fns: FnSeq, name: Seq<char>) -> Result<u64, Seq<char>> {
    match fn_at(fns, name) {
        Some(i) => Ok(fns[i].1),
        None => Err(fn_missing(fns, name)),
    }
}

/// The table with a function registered. Replacing an existing name is allowed.
pub open spec fn fn_added(fns: FnSeq, name: Seq<char>, handle: u64) -> FnSeq {
    match fn_at(fns, name) {
        Some(i) => fns.update(i, (name, handle)),
        None => fns.push((name, handle)),
    }
}

proof fn fn_at_is_last(fns: FnSeq, name: Seq<char>)
    ensures
        match fn_at(fns, name) {
            Some(i) => 0 <= i < fns.len() && fns[i].0 == name && forall|j: int|
                i < j < fns.len() ==> (#[trigger] fns[j]).0 != name,
            None => forall|j: int| 0 <= j < fns.len() ==> (#[trigger] fns[j]).0 != name,
        },
    decreases fns.len(),
{
    if fns.len() > 0 && fns.last().0 != name {
        let init = fns.drop_last();
        fn_at_is_last(init, name);
        assert forall|j: int| 0 <= j < fns.len() && fns[j].0 == name implies j < init.len()
            && init[j] == fns[j] by {}
    }
}

/// A registered function is found under its name, and every other name answers
/// as before, unless it is missing.
pub proof fn registered_functions_are_found(
    fns: FnSeq,
    name: Seq<char>,
    handle: u64,
    other: Seq<char>,
)
    requires
        other != name,
    ensures
        fn_found(fn_added(fns, name, handle), name) == Ok::<u64, Seq<char>>(handle),
        fn_at(fns, other) is Some ==> fn_found(fn_added(fns, name, handle), other) == fn_found(
            fns,
            other,
        ),
{
    let after = fn_added(fns, name, handle);
    fn_at_is_last(fns, name);
    fn_at_is_last(after, name);
    fn_at_is_last(fns, other);
    fn_at_is_last(after, other);
    match fn_at(fns, name) {
        Some(i) => {
            assert(after[i] == (name, handle));
            let j = fn_at(after, name)->0;
            if j > i {
                assert(after[j] == fns[j]);
            }
        },
        None => {
            assert(after[fns.len() as int] == (name, handle));
        },
    }
    if fn_at(fns, other) is Some {
        let k = fn_at(fns, other)->0;
        assert(after[k] == fns[k]);
        let j = fn_at(after, other)->0;
        if j > k {
            assert(after[j].0 == other);
            assert(after[j] == fns[j] || after[j].0 == name);
        }
    }
}

/// The table without a function.
pub open spec fn fn_removed(fns: FnSeq, name: Seq<char>) -> FnSeq {
    match fn_at(fns, name) {
        Some(i) => fns.remove(i),
        None => fns,
    }
}

/// No name is registered twice.
pub open spec fn fns_distinct(fns: FnSeq) -> bool {
    forall|i: int, j: int|
        0 <= i < j < fns.len() ==> (#[trigger] fns[i]).0 != (#[trigger] fns[j]).0
}

/// Registering keeps the names apart.
pub proof fn registering_keeps_names_distinct(fns: FnSeq, name: Seq<char>, handle: u64)
    requires
        fns_distinct(fns),
    ensures
        fns_distinct(fn_added(fns, name, handle)),
{
    fn_at_is_last(fns, name);
}

/// A function that was unregistered is missing, every other name answers as
/// before, unless it is missing, and the names stay apart.
pub proof fn unregistered_functions_are_missing(fns: FnSeq, name: Seq<char>, other: Seq<char>)
    requires
        fns_distinct(fns),
    ensures
        fns_distinct(fn_removed(fns, name)),
        fn_at(fn_removed(fns, name), name) is None,
        fn_found(fn_removed(fns, name), name) is Err,
        other != name && fn_at(fns, other) is Some ==> fn_found(fn_removed(fns, name), other) == fn_found(
            fns,
            other,
        ),
        fn_at(fns, other) is None ==> fn_at(fn_removed(fns, name), other) is None,
{
    let after = fn_removed(fns, name);
    fn_at_is_last(fns, name);
    fn_at_is_last(after, name);
    fn_at_is_last(fns, other);
    fn_at_is_last(after, other);
    if let Some(i) = fn_at(fns, name) {
        assert forall|k: int| 0 <= k < after.len() implies #[trigger] after[k] == fns[if k < i {
            k
        } else {
            k + 1
        }] by {}
        if let Some(k) = fn_at(after, name) {
            assert(after[k].0 == name);
        }
        if other != name && fn_at(fns, other) is Some {
            let j = fn_at(fns, other)->0;
            assert(after[if j < i {
                j
            } else {
                j - 1
            }] == fns[j]);
        }
        if let Some(k) = fn_at(after, other) {
            assert(after[k].0 == other);
        }
    }
}

impl FnTable {
    pub open spec fn wf(&self) -> bool {
        fns_distinct(self@)
    }

    pub fn new() -> (r: Self)
        ensures
            r@ == FnSeq::empty(),
            r.wf(),
    {
        let r = FnTable { entries: Vec::new() };
        proof {
            assert(r@ =~= FnSeq::empty());
        }
        r
    }

    fn find(&self, name: &str) -> (r: Option<usize>)
        ensures
            match r {
                Some(i) => fn_at(self@, name@) == Some(i as int) && i < self@.len(),
                None => fn_at(self@, name@) is None,
            },
    {
        let mut i: usize = self.entries.len();
        proof {
            assert(self@.take(i as int) =~= self@);
        }
        while i > 0
            invariant
                i <= self@.len(),
                self@.len() == self.entries@.len(),
                fn_at(self@, name@) == fn_at(self@.take(i as int), name@),
            decreases i,
        {
            proof {
                assert(self@.take(i as int).drop_last() =~= self@.take(i - 1));
                assert(self@.take(i as int).last() == (
                    self.entries@[i - 1].0@,
                    self.entries@[i - 1].1,
                ));
            }
            i = i - 1;
            if text::same_text(self.entries[i].0.as_str(), name) {
                return Some(i);
            }
        }
        None
    }

    /// Register a function by name.
    pub fn register(&mut self, name: &str, handle: u64) -> (r: Result<(), String>)
        ensures
            match fn_name_fault(name@) {
                Some(msg) => (r matches Err(e) && e@ == msg) && final(self)@ == old(self)@,
                None => r is Ok && final(self)@ == fn_added(old(self)@, name@, handle),
            },
            old(self).wf() ==> final(self).wf(),
    {
        proof {
            if self.wf() {
                registering_keeps_names_distinct(self@, name@, handle);
            }
        }
        let t = text::trim(name);
        if text::to_chars(t.as_str()).len() == 0 {
            return Err("function name must not be empty".to_owned());
        }
        let chars = text::to_chars(name);
        proof {
            if name@.len() == 0 {
                assert(text::trimmed(name@) =~= Seq::empty());
            }
        }
        if chars[0] == '@' {
            return Err("register the bare name; `@` is only used at the call site".to_owned());
        }
        let ghost was = self@;
        match self.find(name) {
            Some(i) => {
                self.entries.set(i, (name.to_owned(), handle));
                proof {
                    assert(self@ =~= was.update(i as int, (name@, handle)));
                }
            },
            None => {
                self.entries.push((name.to_owned(), handle));
                proof {
                    assert(self@ =~= was.push((name@, handle)));
                }
            },
        }
        Ok(())
    }

    pub fn unregister(&mut self, name: &str)
        ensures
            final(self)@ == fn_removed(old(self)@, name@),
            old(self).wf() ==> final(self).wf() && fn_at(final(self)@, name@) is None,
    {
        let ghost was = self@;
        proof {
            if self.wf() {
                unregistered_functions_are_missing(was, name@, name@);
            }
        }
        if let Some(i) = self.find(name) {
            let _ = self.entries.remove(i);
            proof {
                assert(self@ =~= was.remove(i as int));
            }
        }
    }

    pub fn clear(&mut self)
        ensures
            final(self)@ == FnSeq::empty(),
            final(self).wf(),
    {
        self.entries = Vec::new();
        proof {
            assert(self@ =~= FnSeq::empty());
        }
    }

    /// Resolve `@name`, with a did-you-mean over the registered names.
    pub fn lookup(&self, name: &str) -> (r: Result<u64, String>)
        ensures
            match fn_found(self@, name@) {
                Ok(handle) => r == Ok::<u64, String>(handle),
                Err(msg) => r matches Err(e) && e@ == msg,
            },
    {
        if let Some(i) = self.find(name) {
            return Ok(self.entries[i].1);
        }
        let mut names: Vec<String> = Vec::new();
        let mut i: usize = 0;
        while i < self.entries.len()
            invariant
                i <= self.entries@.len(),
                names@.len() == i,
                forall|k: int| 0 <= k < i ==> (#[trigger] names@[k])@ == self.entries@[k].0@,
            decreases self.entries@.len() - i,
        {
            names.push(self.entries[i].0.clone());
            i = i + 1;
        }
        proof {
            assert(text::texts(names@) =~= fn_names(self@));
            assert(fn_names(self@).take(fn_names(self@).len() as int) =~= fn_names(self@));
        }
        let mut msg = "no registered function `@".to_owned();
        msg.append(name);
        match error::did_you_mean(name, &names) {
            Some(s) => {
                msg.append("` — did you mean `@");
                msg.append(s.as_str());
                msg.append("`?");
            },
            None => {
                if self.entries.len() == 0 {
                    msg.append("`; register one with bt.registerFn(name, fn)");
                } else {
                    msg.append("`; registered: ");
                    let list = text::join(&names, names.len(), ", ");
                    msg.append(list.as_str());
                }
            },
        }
        Err(msg)
    }
}

/// Why inline source is not compiled on a page that forbids `eval`.
pub open spec fn no_eval(source: Seq<char>) -> Seq<char> {
    "this page's Content-Security-Policy forbids `eval`, so inline functions cannot be compiled. Register the function from TypeScript instead — bt.registerFn('name', "@
        + source + ") — and use `@name`"@
}

pub fn no_eval_text(source: &str) -> (r: String)
    ensures
        r@ == no_eval(source@),
{
    text::around(
        "this page's Content-Security-Policy forbids `eval`, so inline functions cannot be compiled. Register the function from TypeScript instead — bt.registerFn('name', ",
        source,
        ") — and use `@name`",
    )
}

/// How a host function is called in errors: its source, or its registered name.
pub open spec fn fn_label(source: Seq<char>, registered: bool) -> Seq<char> {
    if registered {
        "`@"@ + source + "`"@
    } else {
        "`"@ + source + "`"@
    }
}

pub fn fn_label_text(source: &str, registered: bool) -> (r: String)
    ensures
        r@ == fn_label(source@, registered),
{
    if registered {
        text::around("`@", source, "`")
    } else {
        text::around("`", source, "`")
    }
}

/// What a call of a host function comes to: its value, or a message that names
/// the function, where it threw or where its value has no counterpart.
pub open spec fn call_outcome(
    label: Seq<char>,
    threw: Option<Seq<char>>,
    v: Result<ValueView, Seq<char>>,
) -> Result<ValueView, Seq<char>> {
    match threw {
        Some(msg) => Err(label + " threw: "@ + msg),
        None => match v {
            Ok(x) => Ok(x),
            Err(msg) => Err(label + ": "@ + msg),
        },
    }
}

pub fn settle_call(label: &str, threw: Option<String>, v: Result<Value, String>) -> (r: Result<
    Value,
    String,
>)
    ensures
        convert::conversion(r) == call_outcome(
            label@,
            error::opt_text(threw),
            convert::conversion(v),
        ),
{
    if let Some(msg) = threw {
        let mut out = label.to_owned();
        out.append(" threw: ");
        out.append(msg.as_str());
        return Err(out);
    }
    match v {
        Ok(x) => Ok(x),
        Err(msg) => {
            let mut out = label.to_owned();
            out.append(": ");
            out.append(msg.as_str());
            Err(out)
        },
    }
}

/// The message of a programmatic run that failed: the error's, with its help.
pub open spec fn rejection(e: ErrorView) -> Seq<char> {
    match e.help {
        Some(help) => e.msg + " ("@ + help + ")"@,
        None => e.msg,
    }
}

pub fn rejection_text(e: &ShellError) -> (r: String)
    ensures
        r@ == rejection(e@),
{
    let mut msg = e.msg.clone();
    if let Some(help) = &e.help {
        msg.append(" (");
        msg.append(help.as_str());
        msg.append(")");
    }
    msg
}

} // verus!
