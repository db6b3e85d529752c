//! Command templates: a shell command whose `{{name}}` placeholders are
//! filled in with the values bound to the variables of the same names.
//!
//! A placeholder starts at `{{` and ends at the first `}}` that follows a
//! name of at least one character; a name holds no line break. The text is
//! scanned from the left, and after a placeholder the scan resumes behind it,
//! so placeholders never overlap.

use vstd::prelude::*;
use vstd::string::*;
use crate::variables::{lookup, VariableValues};

verus! {

/// Where the name that starts at `start` ends, scanning from `j`: the first
/// `e > start` at which `}}` stands, provided no line break comes before it.
pub open spec fn name_end(s: Seq<char>, start: int, j: int) -> Option<int>
    decreases s.len() - j,
{
    if j < start || j + 1 >= s.len() {
        None
    } else if j > start && s[j] == '}' && s[j + 1] == '}' {
        Some(j)
    } else if s[j] == '\n' {
        None
    } else {
        name_end(s, start, j + 1)
    }
}

/// Where the name of a placeholder that opens at `i` ends, if one opens there.
pub open spec fn placeholder_end(s: Seq<char>, i: int) -> Option<int> {
    if 0 <= i && i + 1 < s.len() && s[i] == '{' && s[i + 1] == '{' {
        name_end(s, i + 2, i + 2)
    } else {
        None
    }
}

proof fn lemma_name_end(s: Seq<char>, start: int, j: int)
    requires
        0 <= start <= j,
    ensures
        name_end(s, start, j) matches Some(e) ==> start < e && j <= e && e + 1 < s.len()
            && s[e] == '}' && s[e + 1] == '}',
    decreases s.len() - j,
{
    if j + 1 < s.len() && !(j > start && s[j] == '}' && s[j + 1] == '}') && s[j] != '\n' {
        lemma_name_end(s, start, j + 1);
    }
}

#[via_fn]
proof fn scan_decreases(s: Seq<char>, i: int) {
    if 0 <= i {
        lemma_name_end(s, i + 2, i + 2);
    }
}

/// The names of the placeholders from position `i` on, in order, with
/// repetitions.
pub open spec fn placeholders_from(s: Seq<char>, i: int) -> Seq<Seq<char>>
    decreases s.len() - i,
    via scan_decreases
{
    if i < 0 || i >= s.len() {
        Seq::empty()
    } else {
        match placeholder_end(s, i) {
            Some(e) => seq![s.subrange(i + 2, e)] + placeholders_from(s, e + 2),
            None => placeholders_from(s, i + 1),
        }
    }
}

/// `acc` followed by the names of `rest` that neither `acc` nor an earlier
/// name of `rest` holds.
pub open spec fn dedup_into(acc: Seq<Seq<char>>, rest: Seq<Seq<char>>) -> Seq<Seq<char>>
    decreases rest.len(),
{
    if rest.len() == 0 {
        acc
    } else if acc.contains(rest[0]) {
        dedup_into(acc, rest.drop_first())
    } else {
        dedup_into(acc.push(rest[0]), rest.drop_first())
    }
}

/// The variables of a template: each placeholder name once, in the order of
/// first occurrence.
pub open spec fn template_variables(s: Seq<char>) -> Seq<Seq<char>> {
    dedup_into(Seq::empty(), placeholders_from(s, 0))
}

/// What a placeholder named `name` is replaced with: the bound value of a
/// declared variable; any other placeholder stays as it is.
pub open spec fn replacement(
    name: Seq<char>,
    declared: Seq<Seq<char>>,
    values: Seq<(Seq<char>, Seq<char>)>,
) -> Option<Seq<char>> {
    if declared.contains(name) {
        lookup(values, name)
    } else {
        None
    }
}

/// What the placeholder from `i` to `e + 2` becomes.
pub open spec fn placeholder_output(
    s: Seq<char>,
    i: int,
    e: int,
    declared: Seq<Seq<char>>,
    values: Seq<(Seq<char>, Seq<char>)>,
) -> Seq<char> {
    match replacement(s.subrange(i + 2, e), declared, values) {
        Some(v) => v,
        None => s.subrange(i, e + 2),
    }
}

/// The text from position `i` on with its placeholders replaced in one pass:
/// an inserted value is never scanned again.
pub open spec fn substitute_from(
    s: Seq<char>,
    i: int,
    declared: Seq<Seq<char>>,
    values: Seq<(Seq<char>, Seq<char>)>,
) -> Seq<char>
    decreases s.len() - i,
    via substitute_decreases
{
    if i < 0 || i >= s.len() {
        Seq::empty()
    } else {
        match placeholder_end(s, i) {
            Some(e) => placeholder_output(s, i, e, declared, values) + substitute_from(
                s,
                e + 2,
                declared,
                values,
            ),
            None => seq![s[i]] + substitute_from(s, i + 1, declared, values),
        }
    }
}

#[via_fn]
proof fn substitute_decreases(
    s: Seq<char>,
    i: int,
    declared: Seq<Seq<char>>,
    values: Seq<(Seq<char>, Seq<char>)>,
) {
    if 0 <= i {
        lemma_name_end(s, i + 2, i + 2);
    }
}

/// A template with its placeholders replaced.
pub open spec fn substitute(
    s: Seq<char>,
    declared: Seq<Seq<char>>,
    values: Seq<(Seq<char>, Seq<char>)>,
) -> Seq<char> {
    substitute_from(s, 0, declared, values)
}

/// The first of `names` that `values` does not bind, if any.
pub open spec fn first_unbound(names: Seq<Seq<char>>, values: Seq<(Seq<char>, Seq<char>)>) -> Option<
    Seq<char>,
>
    decreases names.len(),
{
    if names.len() == 0 {
        None
    } else if lookup(values, names[0]) is None {
        Some(names[0])
    } else {
        first_unbound(names.drop_first(), values)
    }
}

proof fn lemma_first_unbound_index(
    names: Seq<Seq<char>>,
    values: Seq<(Seq<char>, Seq<char>)>,
    i: int,
)
    requires
        0 <= i <= names.len(),
        forall|j: int| 0 <= j < i ==> lookup(values, #[trigger] names[j]) is Some,
    ensures
        first_unbound(names, values) == first_unbound(
            names.subrange(i, names.len() as int),
            values,
        ),
    decreases i,
{
    if i > 0 {
        assert(lookup(values, names[0]) is Some);
        assert forall|j: int| 0 <= j < i - 1 implies lookup(
            values,
            #[trigger] names.drop_first()[j],
        ) is Some by {
            assert(names.drop_first()[j] == names[j + 1]);
        }
        lemma_first_unbound_index(names.drop_first(), values, i - 1);
        assert(names.drop_first().subrange(i - 1, names.len() - 1) =~= names.subrange(
            i,
            names.len() as int,
        ));
    } else {
        assert(names.subrange(0, names.len() as int) =~= names);
    }
}

/// The template could not be read.
#[derive(Debug, Clone, Copy, PartialEq, Eq, Structural)]
pub struct CommandTaskParseError;

/// A variable of the template has no value bound.
#[derive(Debug, Clone, PartialEq, Eq)]
pub struct CommandTaskReplaceValuesError {
    /// The first declared variable without a value.
    pub variable: String,
}

impl CommandTaskParseError {
    /// A message for a user.
    pub fn to_string(&self) -> (r: String)
        ensures
            r@ == "Failed to parse a command task"@,
    {
        "Failed to parse a command task".to_string()
    }
}

impl CommandTaskReplaceValuesError {
    /// A message for a user, naming the variable without a value.
    pub fn to_string(&self) -> (r: String)
        ensures
            r@ == "Could not replace the placeholders in the command: no value for "@
                + self.variable@,
    {
        let mut r = "Could not replace the placeholders in the command: no value for ".to_string();
        r.append(self.variable.as_str());
        r
    }
}

/// A variable value in a command task, to be filled in e.g. by a form.
#[derive(Debug, Clone, PartialEq, Eq)]
pub struct CommandTaskVariable {
    pub name: String,
    pub default_value: Option<String>,
}

/// The executable part of a command: the template and its variables.
#[derive(Debug, Clone, PartialEq, Eq)]
pub struct CommandTask {
    pub base: String,
    pub variables: Vec<CommandTaskVariable>,
}

/// The names of a list of variables, in order.
pub open spec fn variable_names(vars: Seq<CommandTaskVariable>) -> Seq<Seq<char>> {
    vars.map_values(|v: CommandTaskVariable| v.name@)
}

impl CommandTask {
    /// The declared variables are exactly the template's placeholder names,
    /// each once, in the order of first occurrence.
    pub open spec fn wf(&self) -> bool {
        variable_names(self.variables@) == template_variables(self.base@)
    }
}

fn chars_of(s: &str) -> (r: Vec<char>)
    ensures
        r@ == s@,
{
    let n = s.unicode_len();
    let mut r: Vec<char> = Vec::new();
    let mut i: usize = 0;
    while i < n
        invariant
            n == s@.len(),
            i <= n,
            r@ == s@.subrange(0, i as int),
        decreases n - i,
    {
        r.push(s.get_char(i));
        i = i + 1;
        proof {
            assert(r@ =~= s@.subrange(0, i as int));
        }
    }
    proof {
        assert(r@ =~= s@);
    }
    r
}

fn find_name_end(t: &Vec<char>, start: usize) -> (r: Option<usize>)
    requires
        start <= t@.len(),
    ensures
        match name_end(t@, start as int, start as int) {
            Some(e) => r is Some && r->0 == e,
            None => r is None,
        },
{
    let mut j = start;
    while t.len() - j > 1
        invariant
            start <= j <= t@.len(),
            name_end(t@, start as int, start as int) == name_end(t@, start as int, j as int),
        decreases t@.len() - j,
    {
        if j > start && t[j] == '}' && t[j + 1] == '}' {
            return Some(j);
        }
        if t[j] == '\n' {
            return None;
        }
        j = j + 1;
    }
    None
}

fn find_placeholder(t: &Vec<char>, i: usize) -> (r: Option<usize>)
    requires
        i <= t@.len(),
    ensures
        match placeholder_end(t@, i as int) {
            Some(e) => r is Some && r->0 == e,
            None => r is None,
        },
{
    if t.len() - i > 1 && t[i] == '{' && t[i + 1] == '{' {
        find_name_end(t, i + 2)
    } else {
        None
    }
}

fn has_variable(vars: &Vec<CommandTaskVariable>, name: &String) -> (r: bool)
    ensures
        r == variable_names(vars@).contains(name@),
{
    let mut k: usize = 0;
    while k < vars.len()
        invariant
            k <= vars@.len(),
            forall|j: int| 0 <= j < k ==> (#[trigger] vars@[j]).name@ != name@,
        decreases vars@.len() - k,
    {
        if vars[k].name == *name {
            proof {
                assert(variable_names(vars@)[k as int] == name@);
            }
            return true;
        }
        k = k + 1;
    }
    proof {
        if variable_names(vars@).contains(name@) {
            let j = choose|j: int|
                0 <= j < variable_names(vars@).len() && variable_names(vars@)[j] == name@;
            assert(vars@[j].name@ == name@);
        }
    }
    false
}

impl CommandTask {
    /// Reads a template: the variables are its placeholder names, each once,
    /// in the order of first occurrence, with no default value. Every text
    /// is a template.
    pub fn from_str(value: &str) -> (r: Result<CommandTask, CommandTaskParseError>)
        ensures
            r matches Ok(task) && task.base@ == value@ && task.wf() && forall|k: int|
                0 <= k < task.variables@.len() ==> (#[trigger] task.variables@[k]).default_value
                    is None,
    {
        let ghost s = value@;
        let t = chars_of(value);
        let n = t.len();
        let mut vars: Vec<CommandTaskVariable> = Vec::new();
        let mut i: usize = 0;
        proof {
            assert(variable_names(vars@) =~= Seq::<Seq<char>>::empty());
        }
        while i < n
            invariant
                n == s.len(),
                t@ == s,
                s == value@,
                i <= n,
                dedup_into(variable_names(vars@), placeholders_from(s, i as int))
                    == template_variables(s),
                forall|k: int|
                    0 <= k < vars@.len() ==> (#[trigger] vars@[k]).default_value is None,
            decreases n - i,
        {
            match find_placeholder(&t, i) {
                Some(e) => {
                    proof {
                        lemma_name_end(s, i + 2, i + 2);
                    }
                    let name = value.substring_char(i + 2, e).to_string();
                    let ghost rest = placeholders_from(s, e + 2);
                    let ghost names = variable_names(vars@);
                    proof {
                        assert(placeholders_from(s, i as int) == seq![name@] + rest);
                        assert((seq![name@] + rest)[0] == name@);
                        assert((seq![name@] + rest).drop_first() =~= rest);
                    }
                    if !has_variable(&vars, &name) {
                        let ghost nv = name@;
                        vars.push(CommandTaskVariable { name, default_value: None });
                        proof {
                            assert(variable_names(vars@) =~= names.push(nv));
                        }
                    }
                    i = e + 2;
                },
                None => {
                    i = i + 1;
                },
            }
        }
        proof {
            assert(placeholders_from(s, i as int) =~= Seq::<Seq<char>>::empty());
        }
        Ok(CommandTask { base: value.to_string(), variables: vars })
    }

    /// The template itself.
    pub fn to_string(&self) -> (r: String)
        ensures
            r@ == self.base@,
    {
        self.base.clone()
    }

    /// The command with every placeholder of a declared variable replaced by
    /// the value bound to that name, in one pass, values inserted verbatim.
    /// Fails, naming the first declared variable without a value, unless
    /// every declared variable has one.
    pub fn to_executable_string(&self, variables: &VariableValues) -> (r: Result<
        String,
        CommandTaskReplaceValuesError,
    >)
        ensures
            match first_unbound(variable_names(self.variables@), variables@) {
                None => r matches Ok(out) && out@ == substitute(
                    self.base@,
                    variable_names(self.variables@),
                    variables@,
                ),
                Some(missing) => r matches Err(e) && e.variable@ == missing,
            },
    {
        let ghost names = variable_names(self.variables@);
        let mut k: usize = 0;
        while k < self.variables.len()
            invariant
                k <= self.variables@.len(),
                names == variable_names(self.variables@),
                forall|j: int| 0 <= j < k ==> lookup(variables@, #[trigger] names[j]) is Some,
            decreases self.variables@.len() - k,
        {
            let name = &self.variables[k].name;
            proof {
                assert(names[k as int] == name@);
            }
            if variables.get(name).is_none() {
                proof {
                    lemma_first_unbound_index(names, variables@, k as int);
                    assert(names.subrange(k as int, names.len() as int)[0] == names[k as int]);
                }
                return Err(CommandTaskReplaceValuesError { variable: name.clone() });
            }
            k = k + 1;
        }
        proof {
            lemma_first_unbound_index(names, variables@, k as int);
        }
        let base = self.base.as_str();
        let ghost s = base@;
        let t = chars_of(base);
        let n = t.len();
        let mut out = String::new();
        let mut i: usize = 0;
        while i < n
            invariant
                n == s.len(),
                t@ == s,
                s == base@,
                s == self.base@,
                i <= n,
                names == variable_names(self.variables@),
                substitute(s, names, variables@) == out@ + substitute_from(
                    s,
                    i as int,
                    names,
                    variables@,
                ),
            decreases n - i,
        {
            let ghost before = out@;
            match find_placeholder(&t, i) {
                Some(e) => {
                    proof {
                        lemma_name_end(s, i + 2, i + 2);
                    }
                    let name = base.substring_char(i + 2, e).to_string();
                    let declared = has_variable(&self.variables, &name);
                    let value = if declared {
                        variables.get(&name)
                    } else {
                        None
                    };
                    match value {
                        Some(v) => out.append(v.as_str()),
                        None => out.append(base.substring_char(i, e + 2)),
                    }
                    proof {
                        assert(out@ == before + placeholder_output(
                            s,
                            i as int,
                            e as int,
                            names,
                            variables@,
                        ));
                    }
                    i = e + 2;
                },
                None => {
                    out.append(base.substring_char(i, i + 1));
                    proof {
                        assert(s.subrange(i as int, i + 1) =~= seq![s[i as int]]);
                    }
                    i = i + 1;
                },
            }
            proof {
                assert(before + (out@.subrange(before.len() as int, out@.len() as int))
                    =~= out@);
            }
        }
        proof {
            assert(out@ + Seq::<char>::empty() =~= out@);
        }
        Ok(out)
    }
}

/// With no variable declared, substitution leaves a template as it is.
pub proof fn lemma_substitute_undeclared(
    s: Seq<char>,
    i: int,
    values: Seq<(Seq<char>, Seq<char>)>,
)
    requires
        0 <= i <= s.len(),
    ensures
        substitute_from(s, i, Seq::empty(), values) == s.subrange(i, s.len() as int),
    decreases s.len() - i,
{
    if i < s.len() {
        lemma_name_end(s, i + 2, i + 2);
        match placeholder_end(s, i) {
            Some(e) => {
                lemma_substitute_undeclared(s, e + 2, values);
                assert(!Seq::<Seq<char>>::empty().contains(s.subrange(i + 2, e)));
                assert(s.subrange(i, e + 2) + s.subrange(e + 2, s.len() as int) =~= s.subrange(
                    i,
                    s.len() as int,
                ));
            },
            None => {
                lemma_substitute_undeclared(s, i + 1, values);
                assert(seq![s[i]] + s.subrange(i + 1, s.len() as int) =~= s.subrange(
                    i,
                    s.len() as int,
                ));
            },
        }
    } else {
        assert(s.subrange(i, s.len() as int) =~= Seq::<char>::empty());
    }
}

} // verus!
