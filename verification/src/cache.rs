//! Values, and the registry of named variables and named functions that
//! templates are evaluated against.

use vstd::prelude::*;
use vstd::string::*;
use crate::decimal::{decimal_text, integer_text};
use crate::error::{Error, ErrorKind};
use crate::func::{
    current_time, current_time_returns, hostname, hostname_returns, random_bool,
    random_bool_returns, random_num, random_num_returns, random_str, random_str_returns,
};

verus! {

/// A value that an expression evaluates to.
///
/// A `FLOAT` holds the decimal numeral of the number as text. This crate does
/// no floating-point arithmetic: it carries the numeral from a literal to the
/// functions that are called with it, and shows it as it is written. What
/// has to be computed with floats is computed by callables that the host
/// hands in.
#[derive(Debug)]
pub enum ExpType {
    INT(i32),
    FLOAT(String),
    STRING(String),
    BOOL(bool),
}

/// What an [`ExpType`] is, as mathematics sees it.
pub enum Value {
    Integer(int),
    Float(Seq<char>),
    Text(Seq<char>),
    Boolean(bool),
}

impl View for ExpType {
    type V = Value;

    open spec fn view(&self) -> Value {
        match self {
            ExpType::INT(i) => Value::Integer(*i as int),
            ExpType::FLOAT(t) => Value::Float(t@),
            ExpType::STRING(s) => Value::Text(s@),
            ExpType::BOOL(b) => Value::Boolean(*b),
        }
    }
}

impl Value {
    /// The text by which the value is shown.
    pub open spec fn text(self) -> Seq<char> {
        match self {
            Value::Integer(i) => decimal_text(i),
            Value::Float(t) => t,
            Value::Text(s) => s,
            Value::Boolean(b) => if b {
                seq!['t', 'r', 'u', 'e']
            } else {
                seq!['f', 'a', 'l', 's', 'e']
            },
        }
    }
}

impl ExpType {
    /// The text by which the value is shown: an integer in decimal, a float
    /// by its numeral, a string as it is, a boolean as `true` or `false`.
    pub fn to_string(&self) -> (s: String)
        ensures
            s@ == self@.text(),
    {
        match self {
            ExpType::INT(i) => integer_text(*i),
            ExpType::FLOAT(t) => t.clone(),
            ExpType::STRING(s) => s.clone(),
            ExpType::BOOL(b) => {
                proof {
                    reveal_strlit("true");
                    reveal_strlit("false");
                }
                let s = if *b {
                    "true".to_owned()
                } else {
                    "false".to_owned()
                };
                assert(s@ =~= self@.text());
                s
            },
        }
    }
}

impl Clone for ExpType {
    fn clone(&self) -> (v: Self)
        ensures
            v == *self,
    {
        match self {
            ExpType::INT(i) => ExpType::INT(*i),
            ExpType::FLOAT(t) => ExpType::FLOAT(t.clone()),
            ExpType::STRING(s) => ExpType::STRING(s.clone()),
            ExpType::BOOL(b) => ExpType::BOOL(*b),
        }
    }
}

/// `r` is a success whose value is `v`.
pub open spec fn yields(r: Result<ExpType, Error>, v: Value) -> bool {
    r matches Ok(x) && x@ == v
}

/// `r` is a failure of kind `kind`.
pub open spec fn fails_as(r: Result<ExpType, Error>, kind: ErrorKind) -> bool {
    r matches Err(e) && e.kind == kind
}

/// A named variable of the registry.
#[derive(Debug)]
pub struct CacheVariable {
    pub name: String,
    pub value: ExpType,
}

impl CacheVariable {
    /// The variable `name` with the value `value`.
    pub fn new(name: String, value: ExpType) -> (v: Self)
        ensures
            v.name == name,
            v.value == value,
    {
        Self { name, value }
    }
}

impl Clone for CacheVariable {
    fn clone(&self) -> (v: Self)
        ensures
            v == *self,
    {
        Self { name: self.name.clone(), value: self.value.clone() }
    }
}

/// Something that can be called with a list of values.
///
/// `may_return` says which results a call may give. It is a relation and not
/// a function, since a callable may read the clock or draw random numbers.
pub trait Callable {
    /// Whether a call with `params` may return `r`.
    spec fn may_return(&self, params: Seq<ExpType>, r: Result<ExpType, Error>) -> bool;

    /// Calls the callable with `params`.
    fn call(&self, params: Vec<ExpType>) -> (r: Result<ExpType, Error>)
        ensures
            self.may_return(params@, r),
    ;
}

/// A function of the host program, made into a [`Callable`].
pub struct HostFunction<F: Fn(Vec<ExpType>) -> Result<ExpType, Error>> {
    function: F,
}

impl<F: Fn(Vec<ExpType>) -> Result<ExpType, Error>> HostFunction<F> {
    /// The function accepts every list of values.
    #[verifier::type_invariant]
    spec fn accepts_all(self) -> bool {
        forall|params: Vec<ExpType>| call_requires(self.function, (params,))
    }

    /// The function that is held.
    pub closed spec fn function(self) -> F {
        self.function
    }

    /// Wraps `function`, which must accept every list of values.
    pub fn new(function: F) -> (h: Self)
        requires
            forall|params: Vec<ExpType>| call_requires(function, (params,)),
        ensures
            h.function() == function,
    {
        Self { function }
    }
}

impl<F: Fn(Vec<ExpType>) -> Result<ExpType, Error>> Callable for HostFunction<F> {
    open spec fn may_return(&self, params: Seq<ExpType>, r: Result<ExpType, Error>) -> bool {
        host_may_return(self.function(), params, r)
    }

    fn call(&self, params: Vec<ExpType>) -> (r: Result<ExpType, Error>) {
        proof {
            use_type_invariant(self);
        }
        (self.function)(params)
    }
}

/// A callable as an entry of the registry holds it.
///
/// The entry owns the callable; every call of the entry runs this one
/// instance, captured state included.
pub struct Held<C> {
    pub callable: C,
}

/// What a registered function runs when it is called: one of the functions
/// that every registry starts with, or a function of the host. `RandomNum`
/// holds the callable that draws its floats.
pub enum FunctionBody {
    Hostname,
    RandomStr,
    RandomNum(Held<Box<dyn Callable>>),
    RandomBool,
    CurrentTime,
    Host(Held<Box<dyn Callable>>),
}

impl FunctionBody {
    /// Whether a call with `params` may return `r`.
    pub open spec fn may_return(&self, params: Seq<ExpType>, r: Result<ExpType, Error>) -> bool {
        match self {
            FunctionBody::Hostname => hostname_returns(params, r),
            FunctionBody::RandomStr => random_str_returns(params, r),
            FunctionBody::RandomNum(draw) => random_num_returns(&draw.callable, params, r),
            FunctionBody::RandomBool => random_bool_returns(params, r),
            FunctionBody::CurrentTime => current_time_returns(params, r),
            FunctionBody::Host(held) => held.callable.may_return(params, r),
        }
    }

    /// Runs the function on `params`.
    pub fn call(&self, params: Vec<ExpType>) -> (r: Result<ExpType, Error>)
        ensures
            self.may_return(params@, r),
    {
        match self {
            FunctionBody::Hostname => hostname(params),
            FunctionBody::RandomStr => random_str(params),
            FunctionBody::RandomNum(draw) => random_num(params, &draw.callable),
            FunctionBody::RandomBool => random_bool(params),
            FunctionBody::CurrentTime => current_time(params),
            FunctionBody::Host(held) => held.callable.call(params),
        }
    }
}

/// A named function of the registry.
pub struct CacheFunction {
    pub name: String,
    pub function: FunctionBody,
}

/// Whether the host function `function` may return `r` when it is called
/// with a list that holds `params`.
pub open spec fn host_may_return<F: Fn(Vec<ExpType>) -> Result<ExpType, Error>>(
    function: F,
    params: Seq<ExpType>,
    r: Result<ExpType, Error>,
) -> bool {
    exists|list: Vec<ExpType>| list@ == params && call_ensures(function, (list,), r)
}

/// The host function `function` as a callable, which may return what the
/// function may return. The function must accept every list of values.
pub fn callable_of<F>(function: F) -> (callable: Box<dyn Callable>) where
    F: Fn(Vec<ExpType>) -> Result<ExpType, Error> + 'static,

    requires
        forall|params: Vec<ExpType>| call_requires(function, (params,)),
    ensures
        forall|params: Seq<ExpType>, r: Result<ExpType, Error>| #[trigger]
            callable.may_return(params, r) <==> host_may_return(function, params, r),
{
    let held = HostFunction::new(function);
    return Box::new(held);
}

impl CacheFunction {
    /// The function `name`, which runs the host function `function`: a call
    /// of it may return what `function` may return, and nothing else. The
    /// host function must accept every list of values.
    pub fn new<F>(name: String, function: F) -> (f: Self) where
        F: Fn(Vec<ExpType>) -> Result<ExpType, Error> + 'static,

        requires
            forall|params: Vec<ExpType>| call_requires(function, (params,)),
        ensures
            f.name == name,
            f.function is Host,
            forall|params: Seq<ExpType>, r: Result<ExpType, Error>| #[trigger]
                f.function.may_return(params, r) <==> host_may_return(function, params, r),
    {
        let callable = callable_of(function);
        let held = Held { callable };
        let body = FunctionBody::Host(held);
        let f = Self { name, function: body };
        f
    }
}

/// `i` is the place of the first of `names` that equals `name`.
pub open spec fn is_first_named(names: Seq<Seq<char>>, name: Seq<char>, i: int) -> bool {
    &&& 0 <= i < names.len()
    &&& names[i] == name
    &&& forall|j: int| 0 <= j < i ==> names[j] != name
}

/// The place of the first of `names` that equals `name`, if there is one.
pub open spec fn first_named(names: Seq<Seq<char>>, name: Seq<char>) -> Option<int> {
    if exists|i: int| is_first_named(names, name, i) {
        Some(choose|i: int| is_first_named(names, name, i))
    } else {
        None
    }
}

/// The first match is the only one that [`first_named`] can give.
pub proof fn lemma_first_named(names: Seq<Seq<char>>, name: Seq<char>, i: int)
    requires
        is_first_named(names, name, i),
    ensures
        first_named(names, name) == Some(i),
{
    let k = choose|k: int| is_first_named(names, name, k);
    assert(is_first_named(names, name, k));
    if k < i {
        assert(names[k] != name);
    } else if i < k {
        assert(names[i] != name);
    }
}

/// Where no entry has the name, [`first_named`] gives nothing; and only
/// there.
pub proof fn lemma_none_named(names: Seq<Seq<char>>, name: Seq<char>)
    ensures
        first_named(names, name) is None <==> forall|j: int|
            0 <= j < names.len() ==> names[j] != name,
{
    if exists|j: int| 0 <= j < names.len() && names[j] == name {
        let j = choose|j: int| 0 <= j < names.len() && names[j] == name;
        lemma_some_named(names, name, j);
    } else {
        if first_named(names, name) is Some {
            let i = choose|i: int| is_first_named(names, name, i);
            assert(names[i] == name);
        }
    }
}

/// Where some entry has the name, there is a first one.
pub proof fn lemma_some_named(names: Seq<Seq<char>>, name: Seq<char>, j: int)
    requires
        0 <= j < names.len(),
        names[j] == name,
    ensures
        first_named(names, name) matches Some(i) && is_first_named(names, name, i) && i <= j,
    decreases j,
{
    if exists|k: int| 0 <= k < j && names[k] == name {
        let k = choose|k: int| 0 <= k < j && names[k] == name;
        lemma_some_named(names, name, k);
    } else {
        assert(is_first_named(names, name, j));
        lemma_first_named(names, name, j);
    }
}

/// The names of `variables`, in their order.
pub open spec fn variable_names(variables: Seq<CacheVariable>) -> Seq<Seq<char>> {
    variables.map_values(|v: CacheVariable| v.name@)
}

/// The names of `functions`, in their order.
pub open spec fn function_names(functions: Seq<CacheFunction>) -> Seq<Seq<char>> {
    functions.map_values(|f: CacheFunction| f.name@)
}

/// The test that a variable is not named `name`.
pub open spec fn has_other_name(name: Seq<char>) -> spec_fn(CacheVariable) -> bool {
    |v: CacheVariable| v.name@ != name
}

/// `variables` without the entries that are named `name`.
pub open spec fn without_variable(variables: Seq<CacheVariable>, name: Seq<char>) -> Seq<
    CacheVariable,
> {
    variables.filter(has_other_name(name))
}

/// `variables` after `name` is set to `value`: unchanged where no entry has
/// the name; else every entry of that name leaves, and one entry with the
/// new value comes at the end.
pub open spec fn with_variable_set(
    variables: Seq<CacheVariable>,
    name: Seq<char>,
    value: ExpType,
) -> Seq<CacheVariable> {
    match first_named(variable_names(variables), name) {
        Some(i) => without_variable(variables, name).push(
            CacheVariable { name: variables[i].name, value },
        ),
        None => variables,
    }
}

/// Setting a variable that is not there changes nothing: the variables are
/// the same, and a lookup of the name still finds nothing.
pub proof fn lemma_set_missing(variables: Seq<CacheVariable>, name: Seq<char>, value: ExpType)
    requires
        first_named(variable_names(variables), name) is None,
    ensures
        with_variable_set(variables, name, value) == variables,
        first_named(variable_names(with_variable_set(variables, name, value)), name) is None,
{
}

/// Setting a variable that is there moves it to the end with its new value:
/// the entries of other names stay as they were, in their order, before it;
/// the last entry has the name and the value; and a lookup of the name finds
/// that last entry.
pub proof fn lemma_set_present(variables: Seq<CacheVariable>, name: Seq<char>, value: ExpType)
    requires
        first_named(variable_names(variables), name) is Some,
    ensures
        ({
            let after = with_variable_set(variables, name, value);
            &&& after.len() >= 1
            &&& after.drop_last() == without_variable(variables, name)
            &&& after.last().name@ == name
            &&& after.last().value == value
            &&& first_named(variable_names(after), name) == Some(after.len() - 1)
        }),
{
    let names = variable_names(variables);
    let i = choose|i: int| is_first_named(names, name, i);
    assert(is_first_named(names, name, i));
    let kept = without_variable(variables, name);
    let after = with_variable_set(variables, name, value);
    assert(after.drop_last() =~= kept);
    let after_names = variable_names(after);
    assert forall|j: int| 0 <= j < after.len() - 1 implies after_names[j] != name by {
        variables.lemma_filter_pred(has_other_name(name), j);
        assert(after[j] == kept[j]);
    }
    assert(is_first_named(after_names, name, after.len() - 1));
    lemma_first_named(after_names, name, after.len() - 1);
}

/// `functions` has the names that every registry starts with: `hostname`,
/// `random_str`, `random_num`, `random_bool` and `current_time`, in this
/// order.
pub open spec fn has_builtin_names(functions: Seq<CacheFunction>) -> bool {
    &&& functions.len() == 5
    &&& functions[0].name@ == "hostname"@
    &&& functions[1].name@ == "random_str"@
    &&& functions[2].name@ == "random_num"@
    &&& functions[3].name@ == "random_bool"@
    &&& functions[4].name@ == "current_time"@
}

/// `functions` is the list that every registry starts with: the five
/// built-in functions, each under its own name, where `random_num` draws its
/// floats by the host function `float_draw`.
pub open spec fn is_builtin_list<F: Fn(Vec<ExpType>) -> Result<ExpType, Error>>(
    functions: Seq<CacheFunction>,
    float_draw: F,
) -> bool {
    &&& has_builtin_names(functions)
    &&& functions[0].function == FunctionBody::Hostname
    &&& functions[1].function == FunctionBody::RandomStr
    &&& functions[2].function matches FunctionBody::RandomNum(draw) && forall|
        params: Seq<ExpType>,
        r: Result<ExpType, Error>,
    | #[trigger]
        draw.callable.may_return(params, r) <==> host_may_return(float_draw, params, r)
    &&& functions[3].function == FunctionBody::RandomBool
    &&& functions[4].function == FunctionBody::CurrentTime
}

/// In the list that every registry starts with, each name is found at its
/// own place: no name of the five occurs twice.
pub proof fn lemma_builtin_places(functions: Seq<CacheFunction>)
    requires
        has_builtin_names(functions),
    ensures
        first_named(function_names(functions), "hostname"@) == Some(0int),
        first_named(function_names(functions), "random_str"@) == Some(1int),
        first_named(function_names(functions), "random_num"@) == Some(2int),
        first_named(function_names(functions), "random_bool"@) == Some(3int),
        first_named(function_names(functions), "current_time"@) == Some(4int),
{
    reveal_strlit("hostname");
    reveal_strlit("random_str");
    reveal_strlit("random_num");
    reveal_strlit("random_bool");
    reveal_strlit("current_time");
    let names = function_names(functions);
    assert(names[0] == "hostname"@);
    assert(names[1] == "random_str"@);
    assert(names[2] == "random_num"@);
    assert(names[3] == "random_bool"@);
    assert(names[4] == "current_time"@);
    assert("hostname"@[0] == 'h');
    assert("random_str"@[7] == 's');
    assert("random_num"@[7] == 'n');
    assert("random_bool"@[7] == 'b');
    assert("current_time"@[0] == 'c');
    lemma_first_named(names, "hostname"@, 0);
    lemma_first_named(names, "random_str"@, 1);
    lemma_first_named(names, "random_num"@, 2);
    lemma_first_named(names, "random_bool"@, 3);
    lemma_first_named(names, "current_time"@, 4);
}

/// The registry: variables and functions, each in the order in which they
/// were added. Names may repeat; a lookup finds the first entry of a name.
pub struct Cache {
    pub variables: Vec<CacheVariable>,
    pub functions: Vec<CacheFunction>,
}

impl Cache {
    /// The place of the first variable named `name`.
    pub open spec fn variable_index(&self, name: Seq<char>) -> Option<int> {
        first_named(variable_names(self.variables@), name)
    }

    /// The place of the first function named `name`.
    pub open spec fn function_index(&self, name: Seq<char>) -> Option<int> {
        first_named(function_names(self.functions@), name)
    }

    /// Whether calling the function `name` with `params` may return `r`: a
    /// failure of kind `FunctionNotFound` where no function has the name,
    /// else what the first function of that name may return.
    pub open spec fn call_may_return(
        &self,
        name: Seq<char>,
        params: Seq<ExpType>,
        r: Result<ExpType, Error>,
    ) -> bool {
        match self.function_index(name) {
            Some(i) => self.functions@[i].function.may_return(params, r),
            None => fails_as(r, ErrorKind::FunctionNotFound),
        }
    }

    /// A registry without variables that holds the built-in functions.
    /// `size` says for how many variables to make room at once; more can be
    /// added, and a `size` for which there is no room is passed over.
    /// `float_draw` is what `random_num` draws its floats by: this crate has
    /// no floating-point arithmetic, so the host hands the draw in. It is
    /// called with the two bounds of the range, as floats, and must accept
    /// every list of values.
    pub fn new<F>(size: usize, float_draw: F) -> (cache: Self) where
        F: Fn(Vec<ExpType>) -> Result<ExpType, Error> + 'static,

        requires
            forall|params: Vec<ExpType>| call_requires(float_draw, (params,)),
        ensures
            cache.variables@.len() == 0,
            is_builtin_list(cache.functions@, float_draw),
    {
        let mut variables: Vec<CacheVariable> = Vec::new();
        let _ = variables.try_reserve(size);
        let functions = Self::init_functions(float_draw);
        Self { variables, functions }
    }

    /// The built-in functions, as every registry holds them from the start.
    fn init_functions<F>(float_draw: F) -> (functions: Vec<CacheFunction>) where
        F: Fn(Vec<ExpType>) -> Result<ExpType, Error> + 'static,

        requires
            forall|params: Vec<ExpType>| call_requires(float_draw, (params,)),
        ensures
            is_builtin_list(functions@, float_draw),
    {
        let callable = callable_of(float_draw);
        let draw = Held { callable };
        let random_num = FunctionBody::RandomNum(draw);
        let mut functions: Vec<CacheFunction> = Vec::new();
        functions.push(
            CacheFunction { name: "hostname".to_owned(), function: FunctionBody::Hostname },
        );
        functions.push(
            CacheFunction { name: "random_str".to_owned(), function: FunctionBody::RandomStr },
        );
        functions.push(CacheFunction { name: "random_num".to_owned(), function: random_num });
        functions.push(
            CacheFunction { name: "random_bool".to_owned(), function: FunctionBody::RandomBool },
        );
        functions.push(
            CacheFunction { name: "current_time".to_owned(), function: FunctionBody::CurrentTime },
        );
        functions
    }

    /// The variables, in the order in which they were added.
    pub fn variables(&self) -> (v: &Vec<CacheVariable>)
        ensures
            v == &self.variables,
    {
        &self.variables
    }

    /// The functions, in the order in which they were added.
    pub fn functions(&self) -> (f: &Vec<CacheFunction>)
        ensures
            f == &self.functions,
    {
        &self.functions
    }

    /// Adds `variable` at the end. A name that is already there is not
    /// replaced: lookups go on finding the earlier entry.
    pub fn add_variable(&mut self, variable: CacheVariable)
        ensures
            final(self).variables@ == old(self).variables@.push(variable),
            final(self).functions == old(self).functions,
    {
        self.variables.push(variable);
    }

    /// The first variable named `name`, if there is one.
    pub fn get_variable(&self, name: &str) -> (found: Option<&CacheVariable>)
        ensures
            match self.variable_index(name@) {
                Some(i) => found == Some(&self.variables@[i]),
                None => found is None,
            },
    {
        let key = name.to_owned();
        let ghost names = variable_names(self.variables@);
        let mut i: usize = 0;
        while i < self.variables.len()
            invariant
                i <= self.variables@.len(),
                key@ == name@,
                names == variable_names(self.variables@),
                forall|j: int| 0 <= j < i ==> names[j] != name@,
            decreases self.variables@.len() - i,
        {
            if self.variables[i].name == key {
                proof {
                    assert(names[i as int] == name@);
                    lemma_first_named(names, name@, i as int);
                }
                return Some(&self.variables[i]);
            }
            i = i + 1;
        }
        proof {
            lemma_none_named(names, name@);
        }
        None
    }

    /// Removes every variable named `name`. The others keep their order.
    pub fn remove_variable(&mut self, name: &str)
        ensures
            final(self).variables@ == without_variable(old(self).variables@, name@),
            final(self).functions == old(self).functions,
    {
        let key = name.to_owned();
        let mut all: Vec<CacheVariable> = Vec::new();
        std::mem::swap(&mut self.variables, &mut all);
        let ghost before = all@;
        let ghost keep = has_other_name(name@);
        let mut kept: Vec<CacheVariable> = Vec::new();
        for variable in it: all
            invariant
                key@ == name@,
                it.seq() == before,
                keep == has_other_name(name@),
                kept@ == before.take(it.index() as int).filter(keep),
        {
            proof {
                let next = before.take(it.index() + 1);
                assert(next.drop_last() =~= before.take(it.index() as int));
                assert(next.last() == variable);
                reveal_with_fuel(Seq::filter, 2);
            }
            if variable.name != key {
                kept.push(variable);
            }
        }
        proof {
            assert(before.take(before.len() as int) =~= before);
        }
        self.variables = kept;
    }

    /// Sets the variable `name` to `value`, if there is such a variable:
    /// every entry of that name is removed, and one entry with the new value
    /// is added at the end. Where no entry has the name nothing changes: the
    /// variable is not created.
    pub fn set_variable(&mut self, name: &str, value: ExpType)
        ensures
            final(self).variables@ == with_variable_set(old(self).variables@, name@, value),
            final(self).functions == old(self).functions,
    {
        let found = match self.get_variable(name) {
            Some(variable) => Some(variable.name.clone()),
            None => None,
        };
        if let Some(same_name) = found {
            self.remove_variable(name);
            self.add_variable(CacheVariable { name: same_name, value });
        }
    }

    /// Adds the host function `function` under `name`, at the end. A name
    /// that is already there is not replaced: calls go on reaching the
    /// earlier entry. The host function must accept every list of values.
    pub fn add_function<F>(&mut self, name: &str, function: F) where
        F: Fn(Vec<ExpType>) -> Result<ExpType, Error> + 'static,

        requires
            forall|params: Vec<ExpType>| call_requires(function, (params,)),
        ensures
            final(self).functions@.len() == old(self).functions@.len() + 1,
            final(self).functions@.drop_last() == old(self).functions@,
            final(self).functions@.last().name@ == name@,
            final(self).functions@.last().function is Host,
            forall|params: Seq<ExpType>, r: Result<ExpType, Error>| #[trigger]
                final(self).functions@.last().function.may_return(params, r) <==> host_may_return(
                    function,
                    params,
                    r,
                ),
            final(self).variables == old(self).variables,
    {
        let entry = CacheFunction::new(name.to_owned(), function);
        self.functions.push(entry);
        assert(self.functions@.drop_last() =~= old(self).functions@);
    }

    /// Calls the first function named `name` with `params` and returns what
    /// it returns. Where no function has the name the call fails as
    /// `FunctionNotFound`. The registry is left as it was.
    pub fn call_function(&mut self, name: &str, params: Vec<ExpType>) -> (r: Result<
        ExpType,
        Error,
    >)
        ensures
            old(self).call_may_return(name@, params@, r),
            *final(self) == *old(self),
    {
        self.call(name, params)
    }

    /// Does what [`Cache::call_function`] does, on a registry that is only
    /// read.
    pub fn call(&self, name: &str, params: Vec<ExpType>) -> (r: Result<ExpType, Error>)
        ensures
            self.call_may_return(name@, params@, r),
    {
        let key = name.to_owned();
        let ghost names = function_names(self.functions@);
        let mut i: usize = 0;
        while i < self.functions.len()
            invariant
                i <= self.functions@.len(),
                key@ == name@,
                names == function_names(self.functions@),
                forall|j: int| 0 <= j < i ==> names[j] != name@,
            decreases self.functions@.len() - i,
        {
            if self.functions[i].name == key {
                proof {
                    assert(names[i as int] == name@);
                    lemma_first_named(names, name@, i as int);
                }
                return self.functions[i].function.call(params);
            }
            i = i + 1;
        }
        proof {
            lemma_none_named(names, name@);
        }
        Err(Error::with_kind(ErrorKind::FunctionNotFound, "function not found".to_owned()))
    }
}

} // verus!
