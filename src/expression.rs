//! Classification of an input line, and the rewriting of its body: expansion of
//! function calls and replacement of variables.
use vstd::prelude::*;

use crate::text::{
    find, find_from, is_white, is_whitespace, lemma_find_char_absent, lemma_find_char_first,
    lemma_find_from, replace, replace_all, split, split_from, split_str, trim, trim_str,
};

verus! {

/// A classified input line.
///
/// - `Raw(body)`: an expression to evaluate directly, such as `1 + 1`.
/// - `Variable(name, body)`: `name = body`, such as `x = 1 + 1`.
/// - `Function(name, parameters, body)`: `name: p1, p2 = body`, such as
///   `f: x, y = x * x + y * y`.
pub enum Expression {
    Raw(String),
    Variable(String, String),
    Function(String, Vec<String>, String),
}

/// The mathematical model of an [`Expression`].
pub enum Form {
    Raw(Seq<char>),
    Variable(Seq<char>, Seq<char>),
    Function(Seq<char>, Seq<Seq<char>>, Seq<char>),
}

impl Form {
    /// The text that is evaluated or stored.
    pub open spec fn body(self) -> Seq<char> {
        match self {
            Form::Raw(b) => b,
            Form::Variable(_, b) => b,
            Form::Function(_, _, b) => b,
        }
    }

    /// The same form with its body replaced by `b`.
    pub open spec fn with_body(self, b: Seq<char>) -> Form {
        match self {
            Form::Raw(_) => Form::Raw(b),
            Form::Variable(n, _) => Form::Variable(n, b),
            Form::Function(n, ps, _) => Form::Function(n, ps, b),
        }
    }
}

impl View for Expression {
    type V = Form;

    open spec fn view(&self) -> Form {
        match self {
            Expression::Raw(b) => Form::Raw(b@),
            Expression::Variable(n, b) => Form::Variable(n@, b@),
            Expression::Function(n, ps, b) => Form::Function(n@, ps.deep_view(), b@),
        }
    }
}

/// Each piece of `pieces`, trimmed.
pub open spec fn trim_each(pieces: Seq<Seq<char>>) -> Seq<Seq<char>> {
    pieces.map_values(|q: Seq<char>| trim(q))
}

/// The classification of an input line: only its first `=` and the first `:`
/// before it are significant.
pub open spec fn classify(s: Seq<char>) -> Form {
    match find_from(s, seq!['='], 0) {
        None => Form::Raw(trim(s)),
        Some(e) => {
            let left = s.subrange(0, e);
            let body = trim(s.subrange(e + 1, s.len() as int));
            match find_from(left, seq![':'], 0) {
                None => Form::Variable(trim(left), body),
                Some(c) => Form::Function(
                    trim(left.subrange(0, c)),
                    trim_each(split(left.subrange(c + 1, left.len() as int), seq![','])),
                    body,
                ),
            }
        }
    }
}

/// A line `name = body` whose name holds neither `=` nor `:` defines the
/// variable `name`, both parts trimmed; the body may hold anything.
pub proof fn lemma_classify_variable(name: Seq<char>, body: Seq<char>)
    requires
        !name.contains('='),
        !name.contains(':'),
    ensures
        classify(name + seq!['='] + body) == Form::Variable(trim(name), trim(body)),
{
    let s = name + seq!['='] + body;
    let e = name.len() as int;
    assert forall|j: int| 0 <= j < e implies s[j] != '=' by {
        assert(s[j] == name[j]);
    }
    lemma_find_char_first(s, '=', 0, e);
    assert(s.subrange(0, e) =~= name);
    assert(s.subrange(e + 1, s.len() as int) =~= body);
    lemma_find_char_absent(name, ':', 0);
}

/// A line `name: first, second = body` defines the function `name` with the
/// parameters `first` and `second`, each part trimmed, when the name holds
/// neither `=` nor `:` and the parameters hold neither `=` nor `,`; the body may
/// hold anything.
pub proof fn lemma_classify_function(
    name: Seq<char>,
    first: Seq<char>,
    second: Seq<char>,
    body: Seq<char>,
)
    requires
        !name.contains('='),
        !name.contains(':'),
        !first.contains('='),
        !first.contains(','),
        !second.contains('='),
        !second.contains(','),
    ensures
        classify(name + seq![':'] + first + seq![','] + second + seq!['='] + body) == Form::Function(
            trim(name),
            seq![trim(first), trim(second)],
            trim(body),
        ),
{
    let params = first + seq![','] + second;
    let left = name + seq![':'] + params;
    let s = left + seq!['='] + body;
    assert(s =~= name + seq![':'] + first + seq![','] + second + seq!['='] + body);
    let e = left.len() as int;
    assert forall|j: int| 0 <= j < e implies s[j] != '=' by {
        assert(s[j] == left[j]);
        if j > name.len() {
            assert(left[j] == params[j - name.len() - 1]);
            if j - name.len() - 1 < first.len() {
                assert(params[j - name.len() - 1] == first[j - name.len() - 1]);
            } else if j - name.len() - 1 > first.len() {
                assert(params[j - name.len() - 1] == second[j - name.len() - 2 - first.len()]);
            }
        }
    }
    lemma_find_char_first(s, '=', 0, e);
    assert(s.subrange(0, e) =~= left);
    assert(s.subrange(e + 1, s.len() as int) =~= body);
    let c = name.len() as int;
    assert forall|j: int| 0 <= j < c implies left[j] != ':' by {
        assert(left[j] == name[j]);
    }
    lemma_find_char_first(left, ':', 0, c);
    assert(left.subrange(0, c) =~= name);
    assert(left.subrange(c + 1, left.len() as int) =~= params);
    let k = first.len() as int;
    assert forall|j: int| 0 <= j < k implies params[j] != ',' by {
        assert(params[j] == first[j]);
    }
    lemma_find_char_first(params, ',', 0, k);
    assert forall|j: int| k + 1 <= j < params.len() implies params[j] != ',' by {
        assert(params[j] == second[j - k - 1]);
    }
    assert(!params.subrange(k + 1, params.len() as int).contains(','));
    assert(params.subrange(k + 1, params.len() as int) =~= second);
    assert(params.subrange(0, k) =~= first);
    lemma_find_from(params, seq![','], k + 1);
    if let Some(m) = find_from(params, seq![','], k + 1) {
        assert(params.subrange(m, m + 1)[0] == ',');
    }
    assert(split_from(params, seq![','], k + 1) =~= seq![second]);
    assert(split(params, seq![',']) =~= seq![first, second]);
    assert(trim_each(seq![first, second]) =~= seq![trim(first), trim(second)]);
}

/// Each string of `pieces`, trimmed.
fn trim_strings(pieces: &Vec<String>) -> (r: Vec<String>)
    ensures
        r.deep_view() == trim_each(pieces.deep_view()),
{
    let mut r: Vec<String> = Vec::new();
    let mut i: usize = 0;
    while i < pieces.len()
        invariant
            i <= pieces.len(),
            r.deep_view() == trim_each(pieces.deep_view().take(i as int)),
        decreases pieces.len() - i,
    {
        r.push(trim_str(pieces[i].as_str()));
        assert(trim_each(pieces.deep_view().take(i + 1)) =~= trim_each(
            pieces.deep_view().take(i as int),
        ).push(trim(pieces[i as int]@)));
        assert(r.deep_view() =~= trim_each(pieces.deep_view().take(i + 1)));
        i = i + 1;
    }
    assert(pieces.deep_view().take(i as int) =~= pieces.deep_view());
    r
}

/// `body` after the first `n` entries of `variables`, in order, have each had
/// every occurrence of their name replaced by their value; names that are in
/// `shadowed` are passed over.
pub open spec fn substitute_variables(
    body: Seq<char>,
    shadowed: Seq<Seq<char>>,
    variables: Seq<(Seq<char>, Seq<char>)>,
    n: int,
) -> Seq<char>
    decreases n,
{
    if n <= 0 {
        body
    } else {
        let prev = substitute_variables(body, shadowed, variables, n - 1);
        let (name, value) = variables[n - 1];
        if shadowed.contains(name) {
            prev
        } else {
            replace(prev, name, value)
        }
    }
}

/// The names that a form's own parameters keep from variable replacement.
pub open spec fn parameters_of(f: Form) -> Seq<Seq<char>> {
    match f {
        Form::Function(_, ps, _) => ps,
        _ => seq![],
    }
}

/// `f` with every stored variable that it does not shadow replaced by its value.
pub open spec fn replace_variables_in(f: Form, variables: Seq<(Seq<char>, Seq<char>)>) -> Form {
    f.with_body(
        substitute_variables(f.body(), parameters_of(f), variables, variables.len() as int),
    )
}

/// Where a function name stands in a body, as call-site detection sees it.
pub enum CallSite {
    /// No call to expand: the name is absent, no `(` follows it, or the candidate
    /// is rejected.
    Absent,
    /// A `(` follows the name, but no `)` does.
    Unclosed,
    /// A call: the positions of the name's start, of `(` and of `)`.
    At(int, int, int),
}

/// Whether a character other than whitespace stands in `s[a..b]`.
pub open spec fn has_non_white(s: Seq<char>, a: int, b: int) -> bool {
    exists|j: int| a <= j < b && !is_white(#[trigger] s[j])
}

/// Whether `c` stands in `s[a..b]`.
pub open spec fn has_char(s: Seq<char>, c: char, a: int, b: int) -> bool {
    exists|j: int| a <= j < b && #[trigger] s[j] == c
}

/// The call site of `name` in `body`: the first occurrence of the name, then the
/// first `(` and the first `)` after it. The candidate is rejected when anything
/// but whitespace stands between the name and `(`, or a `(` stands between `(`
/// and `)`.
pub open spec fn call_site(body: Seq<char>, name: Seq<char>) -> CallSite {
    match find_from(body, name, 0) {
        None => CallSite::Absent,
        Some(start) => {
            let after = start + name.len();
            match find_from(body, seq!['('], after) {
                None => CallSite::Absent,
                Some(open) => match find_from(body, seq![')'], after) {
                    None => CallSite::Unclosed,
                    Some(close) => if has_non_white(body, after, open) || has_char(
                        body,
                        '(',
                        open + 1,
                        close,
                    ) {
                        CallSite::Absent
                    } else {
                        CallSite::At(start, open, close)
                    },
                },
            }
        },
    }
}

/// The message of a call to `name` that lacks its closing parenthesis.
pub open spec fn missing_parenthesis_message(name: Seq<char>) -> Seq<char> {
    "Error occurs in call of function "@ + name + ": Missing closing parenthesis"@
}

/// The message of a call whose argument count differs from the parameter count.
pub open spec fn argument_count_message() -> Seq<char> {
    "The number of variables is not consistent"@
}

/// `body` after the first `n` parameters have each had every occurrence replaced
/// by the argument at the same position.
pub open spec fn bind_parameters(
    body: Seq<char>,
    parameters: Seq<Seq<char>>,
    arguments: Seq<Seq<char>>,
    n: int,
) -> Seq<char>
    decreases n,
{
    if n <= 0 {
        body
    } else {
        replace(
            bind_parameters(body, parameters, arguments, n - 1),
            parameters[n - 1],
            arguments[n - 1],
        )
    }
}

/// The separator of the arguments of a call.
pub open spec fn argument_separator() -> Seq<char> {
    seq![',', ' ']
}

/// `body` with the call site of the function `name` (with `parameters` and
/// `definition`) replaced by the definition, its parameters bound to the
/// arguments, in one pair of parentheses.
pub open spec fn call_expansion(
    body: Seq<char>,
    name: Seq<char>,
    parameters: Seq<Seq<char>>,
    definition: Seq<char>,
) -> Result<Seq<char>, Seq<char>> {
    match call_site(body, name) {
        CallSite::Absent => Ok(body),
        CallSite::Unclosed => Err(missing_parenthesis_message(name)),
        CallSite::At(start, open, close) => {
            let arguments = split(body.subrange(open + 1, close), argument_separator());
            if arguments.len() != parameters.len() {
                Err(argument_count_message())
            } else {
                Ok(body.subrange(0, start) + seq!['('] + bind_parameters(
                    definition,
                    parameters,
                    arguments,
                    parameters.len() as int,
                ) + seq![')'] + body.subrange(close + 1, body.len() as int))
            }
        },
    }
}

/// `body` after the first `n` functions of the table, in order, have each had
/// their first call site expanded; the first error ends the pass.
pub open spec fn function_expansion(
    body: Seq<char>,
    functions: Seq<(Seq<char>, (Seq<Seq<char>>, Seq<char>))>,
    n: int,
) -> Result<Seq<char>, Seq<char>>
    decreases n,
{
    if n <= 0 {
        Ok(body)
    } else {
        match function_expansion(body, functions, n - 1) {
            Err(e) => Err(e),
            Ok(b) => {
                let (name, (parameters, definition)) = functions[n - 1];
                call_expansion(b, name, parameters, definition)
            },
        }
    }
}

/// Whether `c` stands in `s[a..b]`.
fn has_char_exec(s: &str, c: char, a: usize, b: usize) -> (r: bool)
    requires
        a <= b <= s@.len(),
    ensures
        r == has_char(s@, c, a as int, b as int),
{
    let mut j: usize = a;
    while j < b
        invariant
            a <= j <= b <= s@.len(),
            forall|m: int| a <= m < j ==> s@[m] != c,
        decreases b - j,
    {
        if s.get_char(j) == c {
            return true;
        }
        j = j + 1;
    }
    false
}

/// Whether a character other than whitespace stands in `s[a..b]`.
fn has_non_white_exec(s: &str, a: usize, b: usize) -> (r: bool)
    requires
        a <= b <= s@.len(),
    ensures
        r == has_non_white(s@, a as int, b as int),
{
    let mut j: usize = a;
    while j < b
        invariant
            a <= j <= b <= s@.len(),
            forall|m: int| a <= m < j ==> is_white(s@[m]),
        decreases b - j,
    {
        if !is_whitespace(s.get_char(j)) {
            return true;
        }
        j = j + 1;
    }
    false
}

impl Expression {
    /// The text that is evaluated or stored.
    pub fn body(&self) -> (r: &String)
        ensures
            r@ == self@.body(),
    {
        match self {
            Expression::Raw(b) => b,
            Expression::Variable(_, b) => b,
            Expression::Function(_, _, b) => b,
        }
    }

    fn set_body(&mut self, b: String)
        ensures
            final(self)@ == old(self)@.with_body(b@),
    {
        match self {
            Expression::Raw(d) => {
                *d = b;
            },
            Expression::Variable(_, d) => {
                *d = b;
            },
            Expression::Function(_, _, d) => {
                *d = b;
            },
        }
    }

    /// Whether `name` is one of this expression's own parameters.
    fn has_parameter(&self, name: &String) -> (r: bool)
        ensures
            r == parameters_of(self@).contains(name@),
    {
        match self {
            Expression::Function(_, ps, _) => {
                let mut i: usize = 0;
                while i < ps.len()
                    invariant
                        i <= ps.len(),
                        parameters_of(self@) == ps.deep_view(),
                        forall|j: int| 0 <= j < i ==> ps.deep_view()[j] != name@,
                    decreases ps.len() - i,
                {
                    if ps[i] == *name {
                        assert(parameters_of(self@)[i as int] == name@);
                        return true;
                    }
                    i = i + 1;
                }
                false
            },
            _ => false,
        }
    }

    /// Replaces every stored variable that occurs in the body by its value, as
    /// literal text; a function's own parameters shadow variables of the same name.
    pub fn replace_variables(&mut self, variables: &Vec<(String, String)>)
        ensures
            final(self)@ == replace_variables_in(old(self)@, variables.deep_view()),
            variables@.len() == 0 ==> final(self)@ == old(self)@,
    {
        let ghost vs = variables.deep_view();
        let mut body: String = self.body().clone();
        let mut i: usize = 0;
        while i < variables.len()
            invariant
                i <= variables.len(),
                vs == variables.deep_view(),
                body@ == substitute_variables(self@.body(), parameters_of(self@), vs, i as int),
            decreases variables.len() - i,
        {
            let name = &variables[i].0;
            if !self.has_parameter(name) {
                body = replace_all(body.as_str(), name.as_str(), variables[i].1.as_str());
            }
            i = i + 1;
        }
        self.set_body(body);
        proof {
            if vs.len() == 0 {
                assert(old(self)@.with_body(old(self)@.body()) == old(self)@);
            }
        }
    }
}

impl Expression {
    /// Classifies an input line.
    pub fn new(expression: &str) -> (r: Self)
        ensures
            r@ == classify(expression@),
            !expression@.contains('=') ==> r@ == Form::Raw(trim(expression@)),
    {
        proof {
            reveal_strlit("=");
            reveal_strlit(":");
            reveal_strlit(",");
            assert("="@ =~= seq!['=']);
            assert(":"@ =~= seq![':']);
            assert(","@ =~= seq![',']);
            lemma_find_from(expression@, seq!['='], 0);
            if !expression@.contains('=') {
                lemma_find_char_absent(expression@, '=', 0);
            }
        }
        let len = expression.unicode_len();
        match find(expression, "=", 0) {
            None => Expression::Raw(trim_str(expression)),
            Some(e) => {
                let left = expression.substring_char(0, e);
                let body = trim_str(expression.substring_char(e + 1, len));
                proof {
                    lemma_find_from(left@, seq![':'], 0);
                }
                match find(left, ":", 0) {
                    None => Expression::Variable(trim_str(left), body),
                    Some(c) => {
                        let llen = left.unicode_len();
                        let parameters = split_str(left.substring_char(c + 1, llen), ",");
                        Expression::Function(
                            trim_str(left.substring_char(0, c)),
                            trim_strings(&parameters),
                            body,
                        )
                    },
                }
            },
        }
    }
}

impl Expression {
    /// Finds the call site of `fun_name` in `expression_definition`: the
    /// positions of the name, of `(` and of `)`, or `None` when there is no call
    /// to expand; an error when `)` is missing.
    fn get_function_positions(expression_definition: &String, fun_name: &String) -> (r: Result<
        Option<(usize, usize, usize)>,
        String,
    >)
        ensures
            match call_site(expression_definition@, fun_name@) {
                CallSite::Absent => r == Ok::<Option<(usize, usize, usize)>, String>(None),
                CallSite::Unclosed => r matches Err(m) && m@ == missing_parenthesis_message(
                    fun_name@,
                ),
                CallSite::At(start, open, close) => r matches Ok(Some((a, b, c))) && a == start
                    && b == open && c == close && start + fun_name@.len() <= open < close
                    < expression_definition@.len(),
            },
    {
        let body = expression_definition.as_str();
        let name = fun_name.as_str();
        let ghost s = body@;
        // The length of the body bounds every position below.
        let _len = body.unicode_len();
        proof {
            reveal_strlit("(");
            reveal_strlit(")");
            assert("("@ =~= seq!['(']);
            assert(")"@ =~= seq![')']);
            lemma_find_from(s, name@, 0);
        }
        let start = match find(body, name, 0) {
            None => {
                return Ok(None);
            },
            Some(start) => start,
        };
        let after = start + fun_name.as_str().unicode_len();
        proof {
            lemma_find_from(s, seq!['('], after as int);
            lemma_find_from(s, seq![')'], after as int);
        }
        let open = match find(body, "(", after) {
            None => {
                return Ok(None);
            },
            Some(open) => open,
        };
        let close = match find(body, ")", after) {
            None => {
                let mut message = String::from_str("Error occurs in call of function ");
                message.append(name);
                message.append(": Missing closing parenthesis");
                return Err(message);
            },
            Some(close) => close,
        };
        if has_non_white_exec(body, after, open) {
            return Ok(None);
        }
        proof {
            assert(s.subrange(open as int, open + 1)[0] == '(');
            assert(s.subrange(close as int, close + 1)[0] == ')');
            if close < open {
                assert(s[close as int] == ')');
                assert(!is_white(s[close as int]));
                assert(has_non_white(s, after as int, open as int));
            }
        }
        if has_char_exec(body, '(', open + 1, close) {
            return Ok(None);
        }
        Ok(Some((start, open, close)))
    }

    /// Expands the call site of one function in `definition`, if there is one.
    fn expand_call(
        definition: &String,
        fun_name: &String,
        variables: &Vec<String>,
        fun_definition: &String,
    ) -> (r: Result<String, String>)
        ensures
            match call_expansion(
                definition@,
                fun_name@,
                variables.deep_view(),
                fun_definition@,
            ) {
                Ok(b) => r matches Ok(d) && d@ == b,
                Err(e) => r matches Err(m) && m@ == e,
            },
    {
        let (start, open, close) = match Expression::get_function_positions(definition, fun_name)? {
            None => {
                return Ok(definition.clone());
            },
            Some(positions) => positions,
        };
        let body = definition.as_str();
        let len = body.unicode_len();
        proof {
            reveal_strlit(", ");
            assert(", "@ =~= argument_separator());
        }
        let variable_values = split_str(body.substring_char(open + 1, close), ", ");
        if variables.len() != variable_values.len() {
            return Err(String::from_str("The number of variables is not consistent"));
        }
        let ghost parameters = variables.deep_view();
        let ghost arguments = variable_values.deep_view();
        let mut replaced_fun_definition: String = fun_definition.clone();
        let mut id: usize = 0;
        while id < variables.len()
            invariant
                id <= variables.len() == variable_values.len(),
                parameters == variables.deep_view(),
                arguments == variable_values.deep_view(),
                replaced_fun_definition@ == bind_parameters(
                    fun_definition@,
                    parameters,
                    arguments,
                    id as int,
                ),
            decreases variables.len() - id,
        {
            replaced_fun_definition = replace_all(
                replaced_fun_definition.as_str(),
                variables[id].as_str(),
                variable_values[id].as_str(),
            );
            id = id + 1;
        }
        let mut expanded = String::from_str(body.substring_char(0, start));
        expanded.append("(");
        expanded.append(replaced_fun_definition.as_str());
        expanded.append(")");
        expanded.append(body.substring_char(close + 1, len));
        proof {
            reveal_strlit("(");
            reveal_strlit(")");
            assert(expanded@ =~= call_expansion(
                definition@,
                fun_name@,
                parameters,
                fun_definition@,
            )->Ok_0);
        }
        Ok(expanded)
    }

    /// Expands, for each function of the table in order, the first call site of
    /// that function in the body; parameters are bound to the arguments by
    /// position. A failure leaves the expression unchanged.
    pub fn replace_functions(&mut self, functions: &Vec<(String, (Vec<String>, String))>) -> (r:
        Result<(), String>)
        ensures
            match function_expansion(
                old(self)@.body(),
                functions.deep_view(),
                functions@.len() as int,
            ) {
                Ok(b) => r is Ok && final(self)@ == old(self)@.with_body(b),
                Err(e) => r matches Err(m) && m@ == e && final(self)@ == old(self)@,
            },
            (forall|k: int|
                0 <= k < functions@.len() ==> find_from(
                    old(self)@.body(),
                    #[trigger] functions@[k].0@,
                    0,
                ) is None) ==> r is Ok && final(self)@ == old(self)@,
    {
        let ghost fs = functions.deep_view();
        let mut definition: String = self.body().clone();
        let mut i: usize = 0;
        while i < functions.len()
            invariant
                i <= functions.len(),
                fs == functions.deep_view(),
                function_expansion(self@.body(), fs, i as int) == Ok::<Seq<char>, Seq<char>>(
                    definition@,
                ),
            decreases functions.len() - i,
        {
            let (fun_name, (variables, fun_definition)) = &functions[i];
            match Expression::expand_call(&definition, fun_name, variables, fun_definition) {
                Ok(expanded) => {
                    definition = expanded;
                },
                Err(message) => {
                    proof {
                        lemma_expansion_error_persists(self@.body(), fs, i + 1, fs.len() as int);
                        if forall|k: int|
                            0 <= k < functions@.len() ==> find_from(
                                old(self)@.body(),
                                #[trigger] functions@[k].0@,
                                0,
                            ) is None {
                            lemma_expansion_of_absent_names(self@.body(), fs, fs.len() as int);
                        }
                    }
                    return Err(message);
                },
            }
            i = i + 1;
        }
        self.set_body(definition);
        proof {
            if forall|k: int|
                0 <= k < functions@.len() ==> find_from(
                    old(self)@.body(),
                    #[trigger] functions@[k].0@,
                    0,
                ) is None {
                lemma_expansion_of_absent_names(old(self)@.body(), fs, fs.len() as int);
                assert(old(self)@.with_body(old(self)@.body()) == old(self)@);
            }
        }
        Ok(())
    }
}

/// Once a prefix of the table fails, the whole pass fails with the same error.
proof fn lemma_expansion_error_persists(
    body: Seq<char>,
    functions: Seq<(Seq<char>, (Seq<Seq<char>>, Seq<char>))>,
    m: int,
    n: int,
)
    requires
        0 < m <= n,
        function_expansion(body, functions, m) is Err,
    ensures
        function_expansion(body, functions, n) == function_expansion(body, functions, m),
    decreases n - m,
{
    if m < n {
        lemma_expansion_error_persists(body, functions, m, n - 1);
    }
}

/// A call whose argument count differs from the parameter count of its function
/// fails the whole pass with the argument-count message, whatever functions come
/// after it in the table.
pub proof fn lemma_argument_count_mismatch(
    body: Seq<char>,
    functions: Seq<(Seq<char>, (Seq<Seq<char>>, Seq<char>))>,
    k: int,
)
    requires
        0 <= k < functions.len(),
        function_expansion(body, functions, k) is Ok,
        call_site(function_expansion(body, functions, k)->Ok_0, functions[k].0) matches CallSite::At(
            start,
            open,
            close,
        ) && split(
            function_expansion(body, functions, k)->Ok_0.subrange(open + 1, close),
            argument_separator(),
        ).len() != functions[k].1.0.len(),
    ensures
        function_expansion(body, functions, functions.len() as int) == Err::<Seq<char>, Seq<char>>(
            argument_count_message(),
        ),
{
    lemma_expansion_error_persists(body, functions, k + 1, functions.len() as int);
}

/// Expansion leaves a body unchanged when no function name of the table occurs
/// in it.
pub proof fn lemma_expansion_of_absent_names(
    body: Seq<char>,
    functions: Seq<(Seq<char>, (Seq<Seq<char>>, Seq<char>))>,
    n: int,
)
    requires
        n <= functions.len(),
        forall|k: int| 0 <= k < n ==> find_from(body, #[trigger] functions[k].0, 0) is None,
    ensures
        function_expansion(body, functions, n) == Ok::<Seq<char>, Seq<char>>(body),
    decreases n,
{
    if n > 0 {
        lemma_expansion_of_absent_names(body, functions, n - 1);
        assert(find_from(body, functions[n - 1].0, 0) is None);
    }
}

} // verus!

