//! The session store: the tables of stored variables and functions, and the
//! decisions that turn an input line into a value to evaluate or a function to
//! store. Evaluating the text is left to the caller.
use vstd::prelude::*;

use crate::expression::{
    classify, function_expansion, replace_variables_in, Expression, Form,
};

verus! {

/// The position of the entry whose key is `key`, searching from position `i`.
pub open spec fn key_index_from<V>(entries: Seq<(Seq<char>, V)>, key: Seq<char>, i: int) -> Option<
    int,
>
    decreases entries.len() - i,
{
    if i < 0 || i >= entries.len() {
        None
    } else if entries[i].0 == key {
        Some(i)
    } else {
        key_index_from(entries, key, i + 1)
    }
}

/// The value stored under `key`.
pub open spec fn lookup<V>(entries: Seq<(Seq<char>, V)>, key: Seq<char>) -> Option<V> {
    match key_index_from(entries, key, 0) {
        Some(i) => Some(entries[i].1),
        None => None,
    }
}

/// `entries` with `value` stored under `key`: an entry with that key is
/// overwritten in place, otherwise a new entry is added at the end.
pub open spec fn upsert<V>(entries: Seq<(Seq<char>, V)>, key: Seq<char>, value: V) -> Seq<
    (Seq<char>, V),
> {
    match key_index_from(entries, key, 0) {
        Some(i) => entries.update(i, (key, value)),
        None => entries.push((key, value)),
    }
}

/// No two entries share a key.
pub open spec fn keys_unique<V>(entries: Seq<(Seq<char>, V)>) -> bool {
    forall|i: int, j: int|
        0 <= i < j < entries.len() ==> #[trigger] entries[i].0 != #[trigger] entries[j].0
}

/// The pieces joined, with `sep` between each two.
pub open spec fn join(pieces: Seq<Seq<char>>, sep: Seq<char>) -> Seq<char>
    decreases pieces.len(),
{
    if pieces.len() == 0 {
        seq![]
    } else if pieces.len() == 1 {
        pieces[0]
    } else {
        join(pieces.drop_last(), sep) + sep + pieces.last()
    }
}

/// The name under which the value of a raw expression is stored.
pub open spec fn last_name() -> Seq<char> {
    "last"@
}

/// The mathematical model of a [`SessionStore`]: variable name to rendered
/// value, and function name to parameters and body.
pub struct Tables {
    pub variables: Seq<(Seq<char>, Seq<char>)>,
    pub functions: Seq<(Seq<char>, (Seq<Seq<char>>, Seq<char>))>,
}

/// The variables and functions stored over a session.
///
/// A variable's value is held as the text it is rendered to, which is what
/// replacement writes into a body.
pub struct SessionStore {
    variables: Vec<(String, String)>,
    functions: Vec<(String, (Vec<String>, String))>,
}

/// What is left to do for an input line once it has been resolved.
pub enum Step {
    /// Evaluate `text` and store its value under `target`.
    Evaluate { target: String, text: String },
    /// Store the function `name` with `parameters` and its `body` as written;
    /// `expanded` is the body after expansion and replacement.
    Define { name: String, parameters: Vec<String>, body: String, expanded: String },
}

/// The mathematical model of a [`Step`].
pub enum StepModel {
    Evaluate { target: Seq<char>, text: Seq<char> },
    Define {
        name: Seq<char>,
        parameters: Seq<Seq<char>>,
        body: Seq<char>,
        expanded: Seq<char>,
    },
}

impl View for Step {
    type V = StepModel;

    open spec fn view(&self) -> StepModel {
        match self {
            Step::Evaluate { target, text } => StepModel::Evaluate { target: target@, text: text@ },
            Step::Define { name, parameters, body, expanded } => StepModel::Define {
                name: name@,
                parameters: parameters.deep_view(),
                body: body@,
                expanded: expanded@,
            },
        }
    }
}

/// The step for an input line against the stored tables: function calls are
/// expanded, then variables replaced; the first expansion error is the result.
pub open spec fn step_for(input: Seq<char>, tables: Tables) -> Result<StepModel, Seq<char>> {
    let form = classify(input);
    match function_expansion(form.body(), tables.functions, tables.functions.len() as int) {
        Err(e) => Err(e),
        Ok(b) => {
            let resolved = replace_variables_in(form.with_body(b), tables.variables).body();
            Ok(
                match form {
                    Form::Raw(_) => StepModel::Evaluate { target: last_name(), text: resolved },
                    Form::Variable(n, _) => StepModel::Evaluate { target: n, text: resolved },
                    Form::Function(n, ps, body) => StepModel::Define {
                        name: n,
                        parameters: ps,
                        body,
                        expanded: resolved,
                    },
                },
            )
        },
    }
}

/// The line reported for a stored value.
pub open spec fn assignment_line(target: Seq<char>, value: Seq<char>) -> Seq<char> {
    target + " = "@ + value
}

/// The line reported for a stored function.
pub open spec fn definition_line(
    name: Seq<char>,
    parameters: Seq<Seq<char>>,
    expanded: Seq<char>,
) -> Seq<char> {
    name + "("@ + join(parameters, ", "@) + ") = "@ + expanded
}

impl View for SessionStore {
    type V = Tables;

    closed spec fn view(&self) -> Tables {
        Tables { variables: self.variables.deep_view(), functions: self.functions.deep_view() }
    }
}

/// Stores `value` under `key`.
fn upsert_entry<V: DeepView>(entries: &mut Vec<(String, V)>, key: String, value: V)
    ensures
        final(entries).deep_view() == upsert(old(entries).deep_view(), key@, value.deep_view()),
        keys_unique(old(entries).deep_view()) ==> keys_unique(final(entries).deep_view()),
{
    let ghost es = old(entries).deep_view();
    let ghost dv = value.deep_view();
    let mut i: usize = 0;
    while i < entries.len() && entries[i].0 != key
        invariant
            i <= entries.len(),
            es == entries.deep_view(),
            key_index_from(es, key@, i as int) == key_index_from(es, key@, 0),
        decreases entries.len() - i,
    {
        i = i + 1;
    }
    proof {
        lemma_key_index_from(es, key@, 0);
    }
    if i < entries.len() {
        entries[i] = (key, value);
    } else {
        entries.push((key, value));
    }
    proof {
        assert(entries.deep_view() =~= upsert(es, key@, dv));
        assert forall|a: int, b: int|
            keys_unique(es) && 0 <= a < b < entries.deep_view().len() implies #[trigger] entries.deep_view()[a].0
                != #[trigger] entries.deep_view()[b].0 by {
            if b < es.len() {
                assert(es[a].0 != es[b].0);
            }
        }
    }
}

/// What `key_index_from` returns: the first position at or after `i` whose key is
/// `key`.
pub proof fn lemma_key_index_from<V>(entries: Seq<(Seq<char>, V)>, key: Seq<char>, i: int)
    requires
        0 <= i,
    ensures
        match key_index_from(entries, key, i) {
            Some(k) => i <= k < entries.len() && entries[k].0 == key && forall|j: int|
                i <= j < k ==> entries[j].0 != key,
            None => forall|j: int| i <= j < entries.len() ==> entries[j].0 != key,
        },
    decreases entries.len() - i,
{
    if i < entries.len() && entries[i].0 != key {
        lemma_key_index_from(entries, key, i + 1);
    }
}

/// After `value` is stored under `key`, looking up `key` finds `value`, and every
/// other key finds what it found before.
pub proof fn lemma_lookup_after_upsert<V>(
    entries: Seq<(Seq<char>, V)>,
    key: Seq<char>,
    value: V,
    other: Seq<char>,
)
    ensures
        lookup(upsert(entries, key, value), key) == Some(value),
        other != key ==> lookup(upsert(entries, key, value), other) == lookup(entries, other),
{
    let updated = upsert(entries, key, value);
    lemma_key_index_from(entries, key, 0);
    lemma_key_index_from(entries, other, 0);
    lemma_key_index_from(updated, key, 0);
    lemma_key_index_from(updated, other, 0);
    match key_index_from(entries, key, 0) {
        Some(i) => {
            assert(updated[i].0 == key);
            if let Some(k) = key_index_from(updated, key, 0) {
                if k < i {
                    assert(entries[k].0 == updated[k].0);
                }
            }
            if other != key {
                match key_index_from(entries, other, 0) {
                    Some(m) => {
                        assert(updated[m].0 == other);
                        if let Some(k) = key_index_from(updated, other, 0) {
                            assert(k != i);
                            assert(entries[k].0 == updated[k].0);
                        }
                    },
                    None => {
                        if let Some(k) = key_index_from(updated, other, 0) {
                            assert(k != i);
                            assert(entries[k].0 == updated[k].0);
                        }
                    },
                }
            }
        },
        None => {
            assert(updated[entries.len() as int].0 == key);
            if let Some(k) = key_index_from(updated, key, 0) {
                if k < entries.len() {
                    assert(entries[k].0 == updated[k].0);
                }
            }
            if other != key {
                match key_index_from(entries, other, 0) {
                    Some(m) => {
                        assert(updated[m].0 == other);
                        if let Some(k) = key_index_from(updated, other, 0) {
                            assert(entries[k].0 == updated[k].0);
                        }
                    },
                    None => {
                        if let Some(k) = key_index_from(updated, other, 0) {
                            assert(k < entries.len());
                            assert(entries[k].0 == updated[k].0);
                        }
                    },
                }
            }
        },
    }
}

/// The pieces joined, with `sep` between each two.
fn join_strings(pieces: &Vec<String>, sep: &str) -> (r: String)
    ensures
        r@ == join(pieces.deep_view(), sep@),
{
    let ghost ps = pieces.deep_view();
    let mut r = String::new();
    let mut i: usize = 0;
    while i < pieces.len()
        invariant
            i <= pieces.len(),
            ps == pieces.deep_view(),
            r@ == join(ps.take(i as int), sep@),
        decreases pieces.len() - i,
    {
        if i > 0 {
            r.append(sep);
        }
        r.append(pieces[i].as_str());
        assert(ps.take(i + 1).drop_last() =~= ps.take(i as int));
        i = i + 1;
    }
    assert(ps.take(i as int) =~= ps);
    r
}

impl SessionStore {
    /// A store with no variable and no function.
    pub fn new() -> (r: Self)
        ensures
            r@.variables.len() == 0,
            r@.functions.len() == 0,
            keys_unique(r@.variables) && keys_unique(r@.functions),
    {
        SessionStore { variables: Vec::new(), functions: Vec::new() }
    }

    /// The stored variables, each a name and its rendered value.
    pub fn variables(&self) -> (r: &Vec<(String, String)>)
        ensures
            r.deep_view() == self@.variables,
    {
        &self.variables
    }

    /// The stored functions, each a name, its parameters and its body.
    pub fn functions(&self) -> (r: &Vec<(String, (Vec<String>, String))>)
        ensures
            r.deep_view() == self@.functions,
    {
        &self.functions
    }

    /// Classifies an input line and resolves it against the stored tables:
    /// function calls are expanded, then variables replaced. The tables are not
    /// changed.
    pub fn prepare(&self, input: &str) -> (r: Result<Step, String>)
        ensures
            match step_for(input@, self@) {
                Ok(s) => r matches Ok(t) && t@ == s,
                Err(e) => r matches Err(m) && m@ == e,
            },
    {
        let original = Expression::new(input);
        let mut expression = Expression::new(input);
        expression.replace_functions(&self.functions)?;
        expression.replace_variables(&self.variables);
        let expanded = expression.body().clone();
        proof {
            reveal_strlit("last");
        }
        match original {
            Expression::Raw(_) => Ok(Step::Evaluate { target: String::from_str("last"), text: expanded }),
            Expression::Variable(name, _) => Ok(Step::Evaluate { target: name, text: expanded }),
            Expression::Function(name, parameters, body) => Ok(
                Step::Define { name, parameters, body, expanded },
            ),
        }
    }

    /// Stores `value` under `target` and returns the line that reports it.
    pub fn assign(&mut self, target: String, value: String) -> (line: String)
        ensures
            final(self)@.variables == upsert(old(self)@.variables, target@, value@),
            final(self)@.functions == old(self)@.functions,
            line@ == assignment_line(target@, value@),
            lookup(final(self)@.variables, target@) == Some(value@),
            keys_unique(old(self)@.variables) ==> keys_unique(final(self)@.variables),
    {
        let mut line = target.clone();
        line.append(" = ");
        line.append(value.as_str());
        proof {
            lemma_lookup_after_upsert(self@.variables, target@, value@, target@);
        }
        upsert_entry(&mut self.variables, target, value);
        line
    }

    /// Stores the function `name` with `parameters` and `body`, and returns the
    /// line that reports it, which shows `expanded`.
    pub fn define(
        &mut self,
        name: String,
        parameters: Vec<String>,
        body: String,
        expanded: String,
    ) -> (line: String)
        ensures
            final(self)@.functions == upsert(
                old(self)@.functions,
                name@,
                (parameters.deep_view(), body@),
            ),
            final(self)@.variables == old(self)@.variables,
            line@ == definition_line(name@, parameters.deep_view(), expanded@),
            lookup(final(self)@.functions, name@) == Some((parameters.deep_view(), body@)),
            keys_unique(old(self)@.functions) ==> keys_unique(final(self)@.functions),
    {
        let mut line = name.clone();
        line.append("(");
        let joined = join_strings(&parameters, ", ");
        line.append(joined.as_str());
        line.append(") = ");
        line.append(expanded.as_str());
        proof {
            lemma_lookup_after_upsert(
                self@.functions,
                name@,
                (parameters.deep_view(), body@),
                name@,
            );
        }
        upsert_entry(&mut self.functions, name, (parameters, body));
        line
    }
}

} // verus!
