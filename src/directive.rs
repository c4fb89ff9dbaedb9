use vstd::prelude::*;

verus! {

/// A GraphQL name: a letter or `_`, then letters, digits or `_`.
pub open spec fn is_graphql_name(s: Seq<char>) -> bool {
    &&& s.len() > 0
    &&& ('a' <= s[0] <= 'z' || 'A' <= s[0] <= 'Z' || s[0] == '_')
    &&& forall|i: int|
        1 <= i < s.len() ==> {
            let c = #[trigger] s[i];
            'a' <= c <= 'z' || 'A' <= c <= 'Z' || '0' <= c <= '9' || c == '_'
        }
}

/// Relies on apollo_compiler::Name::is_valid_syntax, which accepts exactly the
/// GraphQL names (an ASCII letter or `_`, then ASCII letters, digits or `_`).
#[verifier::external_body]
pub(crate) fn is_valid_name(s: &str) -> (r: bool)
    ensures
        r == is_graphql_name(s@),
{
    apollo_compiler::Name::is_valid_syntax(s)
}

/// The value of an argument: a string, or any other value as its GraphQL
/// source text. Values are carried over unchanged, never interpreted.
#[derive(Debug)]
pub enum Value {
    String(String),
    Other(String),
}

/// Whether the value is a string, and its text.
pub type ValueView = (bool, Seq<char>);

impl View for Value {
    type V = ValueView;

    open spec fn view(&self) -> ValueView {
        match self {
            Value::String(s) => (true, s@),
            Value::Other(s) => (false, s@),
        }
    }
}

impl Value {
    pub fn duplicate(&self) -> (r: Value)
        ensures
            r@ == self@,
    {
        match self {
            Value::String(s) => Value::String(s.clone()),
            Value::Other(s) => Value::Other(s.clone()),
        }
    }

    pub fn same_as(&self, other: &Value) -> (r: bool)
        ensures
            r == (self@ == other@),
    {
        match (self, other) {
            (Value::String(a), Value::String(b)) => *a == *b,
            (Value::Other(a), Value::Other(b)) => *a == *b,
            _ => false,
        }
    }

    /// The string, where the value is one.
    pub fn as_str(&self) -> (r: Option<&String>)
        ensures
            match r {
                Some(s) => self@.0 && s@ == self@.1,
                None => !self@.0,
            },
    {
        match self {
            Value::String(s) => Some(s),
            Value::Other(_) => None,
        }
    }
}

/// One argument of a directive application.
#[derive(Debug)]
pub struct Argument {
    pub name: String,
    pub value: Value,
}

pub type ArgumentView = (Seq<char>, ValueView);

pub type DirectiveView = (Seq<char>, Seq<ArgumentView>);

impl View for Argument {
    type V = ArgumentView;

    open spec fn view(&self) -> ArgumentView {
        (self.name@, self.value@)
    }
}

pub open spec fn arguments_view(args: Seq<Argument>) -> Seq<ArgumentView> {
    args.map_values(|a: Argument| a@)
}

/// A directive application: a name and its arguments, in order.
#[derive(Debug)]
pub struct Directive {
    pub name: String,
    pub arguments: Vec<Argument>,
}

impl View for Directive {
    type V = DirectiveView;

    open spec fn view(&self) -> DirectiveView {
        (self.name@, arguments_view(self.arguments@))
    }
}

/// The directives applied at one position, in order.
#[derive(Debug)]
pub struct DirectiveList {
    pub directives: Vec<Directive>,
}

impl View for DirectiveList {
    type V = Seq<DirectiveView>;

    open spec fn view(&self) -> Seq<DirectiveView> {
        self.directives@.map_values(|d: Directive| d@)
    }
}

/// The first directive of `l` named `name`.
pub open spec fn first_named(l: Seq<DirectiveView>, name: Seq<char>) -> Option<DirectiveView>
    decreases l.len(),
{
    if l.len() == 0 {
        None
    } else if l[0].0 == name {
        Some(l[0])
    } else {
        first_named(l.drop_first(), name)
    }
}

impl Argument {
    /// An argument whose value is not a string, given as GraphQL source text.
    pub fn new(name: &str, value: &str) -> (r: Argument)
        ensures
            r@ == (name@, (false, value@)),
    {
        Argument { name: String::from_str(name), value: Value::Other(String::from_str(value)) }
    }

    /// An argument whose value is the string `value`.
    pub fn string(name: &str, value: &str) -> (r: Argument)
        ensures
            r@ == (name@, (true, value@)),
    {
        Argument { name: String::from_str(name), value: Value::String(String::from_str(value)) }
    }

    pub fn duplicate(&self) -> (r: Argument)
        ensures
            r@ == self@,
    {
        Argument { name: self.name.clone(), value: self.value.duplicate() }
    }
}

pub fn duplicate_arguments(args: &Vec<Argument>) -> (r: Vec<Argument>)
    ensures
        arguments_view(r@) == arguments_view(args@),
{
    let mut r: Vec<Argument> = Vec::new();
    let mut i: usize = 0;
    while i < args.len()
        invariant
            i <= args@.len(),
            arguments_view(r@) =~= arguments_view(args@.subrange(0, i as int)),
        decreases args@.len() - i,
    {
        let ghost prev = r@;
        let a = args[i].duplicate();
        r.push(a);
        assert(args@.subrange(0, i as int + 1) =~= args@.subrange(0, i as int).push(args@[i as int]));
        assert(arguments_view(r@) =~= arguments_view(prev).push(a@));
        assert(arguments_view(args@.subrange(0, i as int + 1)) =~= arguments_view(
            args@.subrange(0, i as int),
        ).push(args@[i as int]@));
        i = i + 1;
    }
    assert(args@.subrange(0, i as int) =~= args@);
    r
}

pub fn same_arguments(a: &Vec<Argument>, b: &Vec<Argument>) -> (r: bool)
    ensures
        r == (arguments_view(a@) == arguments_view(b@)),
{
    if a.len() != b.len() {
        assert(arguments_view(a@).len() != arguments_view(b@).len());
        return false;
    }
    let mut i: usize = 0;
    while i < a.len()
        invariant
            i <= a@.len() == b@.len(),
            forall|k: int| 0 <= k < i ==> a@[k]@ == b@[k]@,
        decreases a@.len() - i,
    {
        if a[i].name != b[i].name || !a[i].value.same_as(&b[i].value) {
            assert(arguments_view(a@)[i as int] != arguments_view(b@)[i as int]);
            return false;
        }
        i = i + 1;
    }
    assert(arguments_view(a@) =~= arguments_view(b@));
    true
}

impl Directive {
    /// The value of the first argument named `name`.
    pub fn argument_by_name(&self, name: &str) -> (r: Option<&Value>)
        ensures
            match argument_named(self@.1, name@) {
                Some(v) => r is Some && r->0@ == v,
                None => r is None,
            },
    {
        let wanted = String::from_str(name);
        let ghost args = self@.1;
        let mut i: usize = 0;
        assert(args.subrange(0, args.len() as int) =~= args);
        while i < self.arguments.len()
            invariant
                wanted@ == name@,
                args == self@.1,
                i <= args.len(),
                argument_named(args, name@) == argument_named(args.subrange(i as int, args.len() as int), name@),
            decreases args.len() - i,
        {
            let ghost rest = args.subrange(i as int, args.len() as int);
            assert(rest.drop_first() =~= args.subrange(i as int + 1, args.len() as int));
            assert(rest[0] == self.arguments@[i as int]@);
            if self.arguments[i].name == wanted {
                return Some(&self.arguments[i].value);
            }
            i = i + 1;
        }
        None
    }

    pub fn same_as(&self, other: &Directive) -> (r: bool)
        ensures
            r == (self@ == other@),
    {
        self.name == other.name && same_arguments(&self.arguments, &other.arguments)
    }
}

/// The value of the first argument of `d` named `name`.
pub open spec fn argument_named(args: Seq<ArgumentView>, name: Seq<char>) -> Option<ValueView>
    decreases args.len(),
{
    if args.len() == 0 {
        None
    } else if args[0].0 == name {
        Some(args[0].1)
    } else {
        argument_named(args.drop_first(), name)
    }
}

impl DirectiveList {
    pub fn new() -> (r: DirectiveList)
        ensures
            r@ == Seq::<DirectiveView>::empty(),
    {
        let r = DirectiveList { directives: Vec::new() };
        assert(r@ =~= Seq::<DirectiveView>::empty());
        r
    }

    pub fn len(&self) -> (r: usize)
        ensures
            r == self@.len(),
    {
        self.directives.len()
    }

    pub fn push(&mut self, d: Directive)
        ensures
            final(self)@ == old(self)@.push(d@),
    {
        self.directives.push(d);
        assert(self@ =~= old(self)@.push(d@));
    }

    /// The first directive named `name`.
    pub fn get(&self, name: &str) -> (r: Option<&Directive>)
        ensures
            match first_named(self@, name@) {
                Some(d) => r is Some && r->0@ == d,
                None => r is None,
            },
    {
        let wanted = String::from_str(name);
        let mut i: usize = 0;
        assert(self@.subrange(0, self@.len() as int) =~= self@);
        while i < self.directives.len()
            invariant
                wanted@ == name@,
                i <= self@.len(),
                first_named(self@, name@) == first_named(self@.subrange(i as int, self@.len() as int), name@),
            decreases self@.len() - i,
        {
            let ghost rest = self@.subrange(i as int, self@.len() as int);
            assert(rest.drop_first() =~= self@.subrange(i as int + 1, self@.len() as int));
            assert(rest[0] == self.directives@[i as int]@);
            if self.directives[i].name == wanted {
                return Some(&self.directives[i]);
            }
            i = i + 1;
        }
        None
    }

    /// Whether an application equal to `d` is already in the list.
    pub fn contains(&self, d: &Directive) -> (r: bool)
        ensures
            r == self@.contains(d@),
    {
        let mut i: usize = 0;
        while i < self.directives.len()
            invariant
                i <= self@.len(),
                forall|k: int| 0 <= k < i ==> self@[k] != d@,
            decreases self@.len() - i,
        {
            if self.directives[i].same_as(d) {
                assert(self@[i as int] == d@);
                return true;
            }
            i = i + 1;
        }
        false
    }
}

} // verus!
