//! The environment: layers of bindings from names to values, innermost first.
use crate::object::{Expr, Object};
use crate::text::same_text;
use vstd::prelude::*;

verus! {

/// One name bound to one value.
#[derive(Debug, PartialEq)]
pub struct Binding {
    pub name: String,
    pub value: Object,
}

/// An environment: its own layer of bindings, and the environment around it.
#[derive(Debug, PartialEq)]
pub struct Meta {
    pub parent: Option<Box<Meta>>,
    pub vars: Vec<Binding>,
}

/// The mapping that a list of bindings stands for: a later binding of a name
/// overrides an earlier one.
pub open spec fn layer_of(vars: Seq<Binding>) -> Map<Seq<char>, Expr>
    decreases vars.len(),
{
    if vars.len() == 0 {
        Map::empty()
    } else {
        layer_of(vars.drop_last()).insert(vars.last().name@, vars.last().value@)
    }
}

/// The value of a name in a chain of layers: that of the innermost layer
/// that binds it.
pub open spec fn lookup(env: Seq<Map<Seq<char>, Expr>>, name: Seq<char>) -> Option<Expr>
    decreases env.len(),
{
    if env.len() == 0 {
        None
    } else if env[0].dom().contains(name) {
        Some(env[0][name])
    } else {
        lookup(env.skip(1), name)
    }
}

/// The chain with the name bound to the value in its innermost layer.
pub open spec fn bind(env: Seq<Map<Seq<char>, Expr>>, name: Seq<char>, value: Expr) -> Seq<
    Map<Seq<char>, Expr>,
> {
    env.update(0, env[0].insert(name, value))
}

/// The chain with a new empty layer inside it.
pub open spec fn extended(env: Seq<Map<Seq<char>, Expr>>) -> Seq<Map<Seq<char>, Expr>> {
    seq![Map::empty()] + env
}

/// Where the last binding of a name stands in a list, seen from its end.
pub open spec fn last_binding_at(vars: Seq<Binding>, name: Seq<char>, i: int) -> bool {
    &&& 0 <= i < vars.len()
    &&& vars[i].name@ == name
    &&& forall|j: int| i < j < vars.len() ==> (#[trigger] vars[j]).name@ != name
}

/// Whether no binding of a list has the name.
pub open spec fn unbound_in(vars: Seq<Binding>, name: Seq<char>) -> bool {
    forall|j: int| 0 <= j < vars.len() ==> (#[trigger] vars[j]).name@ != name
}

/// The last binding of a name gives the name's value in the layer.
pub proof fn lemma_layer_hit(vars: Seq<Binding>, name: Seq<char>, i: int)
    requires
        last_binding_at(vars, name, i),
    ensures
        layer_of(vars).dom().contains(name),
        layer_of(vars)[name] == vars[i].value@,
    decreases vars.len(),
{
    if i < vars.len() - 1 {
        assert(vars.last() == vars[vars.len() - 1]);
        lemma_layer_hit(vars.drop_last(), name, i);
    }
}

/// A name that no binding has is not in the layer.
pub proof fn lemma_layer_miss(vars: Seq<Binding>, name: Seq<char>)
    requires
        unbound_in(vars, name),
    ensures
        !layer_of(vars).dom().contains(name),
    decreases vars.len(),
{
    if vars.len() > 0 {
        assert(vars.last() == vars[vars.len() - 1]);
        lemma_layer_miss(vars.drop_last(), name);
    }
}

/// Replacing the last binding of a name binds the name anew in the layer.
pub proof fn lemma_layer_update(vars: Seq<Binding>, i: int, b: Binding)
    requires
        last_binding_at(vars, b.name@, i),
    ensures
        layer_of(vars.update(i, b)) == layer_of(vars).insert(b.name@, b.value@),
    decreases vars.len(),
{
    let after = vars.update(i, b);
    if i == vars.len() - 1 {
        assert(after.drop_last() =~= vars.drop_last());
        assert(layer_of(after) =~= layer_of(vars).insert(b.name@, b.value@));
    } else {
        assert(vars.last() == vars[vars.len() - 1]);
        assert(after.drop_last() =~= vars.drop_last().update(i, b));
        lemma_layer_update(vars.drop_last(), i, b);
        assert(layer_of(after) =~= layer_of(vars).insert(b.name@, b.value@));
    }
}

/// Finds the last binding of a name in a list.
pub fn position(vars: &Vec<Binding>, name: &str) -> (r: Option<usize>)
    ensures
        match r {
            Some(i) => last_binding_at(vars@, name@, i as int),
            None => unbound_in(vars@, name@),
        },
{
    let mut i: usize = vars.len();
    while i > 0
        invariant
            i <= vars.len(),
            forall|j: int| i <= j < vars.len() ==> (#[trigger] vars@[j]).name@ != name@,
        decreases i,
    {
        i -= 1;
        if same_text(vars[i].name.as_str(), name) {
            return Some(i);
        }
    }
    None
}

impl View for Meta {
    type V = Seq<Map<Seq<char>, Expr>>;

    open spec fn view(&self) -> Seq<Map<Seq<char>, Expr>> {
        self.layers()
    }
}

impl Default for Meta {
    fn default() -> (r: Meta)
        ensures
            r@ == seq![Map::<Seq<char>, Expr>::empty()],
    {
        Meta::new()
    }
}

impl Meta {
    /// The layers of this environment, its own first and the outermost last.
    pub open spec fn layers(self) -> Seq<Map<Seq<char>, Expr>>
        decreases self,
    {
        match self.parent {
            None => seq![layer_of(self.vars@)],
            Some(p) => seq![layer_of(self.vars@)] + p.layers(),
        }
    }

    /// An environment has at least its own layer.
    pub proof fn lemma_has_layer(self)
        ensures
            self@.len() >= 1,
            self@[0] == layer_of(self.vars@),
    {
    }

    /// A top-level environment: one empty layer.
    pub fn new() -> (r: Meta)
        ensures
            r@ == seq![Map::<Seq<char>, Expr>::empty()],
    {
        Meta { parent: None, vars: Vec::new() }
    }

    /// A new empty layer inside `parent`.
    pub fn extend(parent: Meta) -> (r: Meta)
        ensures
            r@ == extended(parent@),
    {
        Meta { parent: Some(Box::new(parent)), vars: Vec::new() }
    }

    /// Gives back the environment around this one, dropping this one's own
    /// layer; `None` for a top-level environment.
    pub fn into_parent(self) -> (r: Option<Meta>)
        ensures
            self@.len() == 1 ==> r is None,
            self@.len() != 1 ==> r is Some && r->Some_0@ == self@.skip(1),
    {
        match self.parent {
            None => None,
            Some(p) => {
                proof {
                    p.lemma_has_layer();
                    assert(self@.skip(1) =~= p@);
                }
                Some(*p)
            },
        }
    }

    /// Looks a name up: in this environment's own layer first, then outwards.
    pub fn get(&self, name: &str) -> (r: Option<Object>)
        ensures
            match lookup(self@, name@) {
                Some(value) => r is Some && r->Some_0@ == value,
                None => r is None,
            },
        decreases self,
    {
        match position(&self.vars, name) {
            Some(i) => {
                proof {
                    lemma_layer_hit(self.vars@, name@, i as int);
                }
                Some(self.vars[i].value.clone())
            },
            None => {
                proof {
                    lemma_layer_miss(self.vars@, name@);
                }
                match &self.parent {
                    None => {
                        assert(self@.skip(1).len() == 0);
                        assert(lookup(self@.skip(1), name@) is None);
                        None
                    },
                    Some(p) => {
                        assert(self@.skip(1) =~= p@);
                        p.get(name)
                    },
                }
            },
        }
    }

    /// Binds a name in this environment's own layer, in place of what the
    /// layer held for it. The layers around it are left as they are.
    pub fn set(&mut self, name: &str, val: Object)
        ensures
            final(self)@ == bind(old(self)@, name@, val@),
    {
        let b = Binding { name: name.to_owned(), value: val };
        let ghost before = self.vars@;
        match position(&self.vars, name) {
            Some(i) => {
                proof {
                    lemma_layer_update(before, i as int, b);
                }
                self.vars.set(i, b);
            },
            None => {
                self.vars.push(b);
                assert(self.vars@.drop_last() =~= before);
            },
        }
        assert(self@ =~= bind(old(self)@, name@, val@));
    }
}

} // verus!
