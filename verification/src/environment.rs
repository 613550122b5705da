//! Environments: chains of scopes that bind variables to values.

use vstd::hash_map::StringHashMap;
use vstd::prelude::*;

use crate::interpreter::{undefined_variable, Exit, Fault};
use crate::token::{LiteralKind, LiteralValue, Token};

verus! {

/// What one scope binds: values by name.
pub type Scope = Map<Seq<char>, LiteralValue>;

/// The value of `name` in the innermost of `scopes` that binds it. The
/// scopes run from the innermost to the outermost.
pub open spec fn lookup(scopes: Seq<Scope>, name: Seq<char>) -> Option<LiteralValue>
    decreases scopes.len(),
{
    if scopes.len() == 0 {
        None
    } else if scopes[0].contains_key(name) {
        Some(scopes[0][name])
    } else {
        lookup(scopes.drop_first(), name)
    }
}

/// `scopes` after `name` is bound to `value` in the innermost scope,
/// whether or not that scope bound it before.
pub open spec fn defined(scopes: Seq<Scope>, name: Seq<char>, value: LiteralValue) -> Seq<Scope> {
    scopes.update(0, scopes[0].insert(name, value))
}

/// `scopes` after `value` is given to `name` in the innermost scope that
/// binds it, or nothing where no scope does.
pub open spec fn assigned(scopes: Seq<Scope>, name: Seq<char>, value: LiteralValue) -> Option<
    Seq<Scope>,
>
    decreases scopes.len(),
{
    if scopes.len() == 0 {
        None
    } else if scopes[0].contains_key(name) {
        Some(scopes.update(0, scopes[0].insert(name, value)))
    } else {
        match assigned(scopes.drop_first(), name, value) {
            Some(outer) => Some(seq![scopes[0]] + outer),
            None => None,
        }
    }
}

/// What the bindings of one scope bind: their values by name.
pub closed spec fn bindings(values: Map<Seq<char>, LiteralKind>) -> Scope {
    values.map_values(|value: LiteralKind| value@)
}

/// A chain of scopes, from the innermost to the outermost.
pub struct Environment {
    values: StringHashMap<LiteralKind>,
    enclosing: Option<Box<Environment>>,
}

/// The scopes of `environment`, from the innermost to the outermost.
pub closed spec fn scopes_of(environment: Environment) -> Seq<Scope>
    decreases environment,
{
    seq![bindings(environment.values@)] + match environment.enclosing {
        Some(outer) => scopes_of(*outer),
        None => Seq::empty(),
    }
}

impl View for Environment {
    type V = Seq<Scope>;

    closed spec fn view(&self) -> Seq<Scope> {
        scopes_of(*self)
    }
}

impl Environment {
    /// An environment has at least one scope.
    pub proof fn never_empty(&self)
        ensures
            self@.len() >= 1,
    {
    }

    /// An environment of one scope, which binds nothing.
    pub fn new() -> (r: Self)
        ensures
            r@ == seq![Map::<Seq<char>, LiteralValue>::empty()],
    {
        let r = Environment { values: StringHashMap::new(), enclosing: None };
        assert(bindings(r.values@) =~= Map::<Seq<char>, LiteralValue>::empty());
        assert(r@ =~= seq![Map::<Seq<char>, LiteralValue>::empty()]);
        r
    }

    /// An environment whose innermost scope binds nothing and lies within
    /// the scopes of `enclosing`.
    pub fn new_with_enclosing(enclosing: Environment) -> (r: Self)
        ensures
            r@ == seq![Map::<Seq<char>, LiteralValue>::empty()] + enclosing@,
    {
        let r = Environment { values: StringHashMap::new(), enclosing: Some(Box::new(enclosing)) };
        assert(bindings(r.values@) =~= Map::<Seq<char>, LiteralValue>::empty());
        r
    }

    /// Whether the innermost scope lies within another.
    pub fn has_enclosing(&self) -> (r: bool)
        ensures
            r == (self@.len() > 1),
    {
        match &self.enclosing {
            Some(outer) => {
                assert(self@ =~= seq![self@[0]] + outer@);
                assert(scopes_of(**outer).len() >= 1);
                true
            },
            None => false,
        }
    }

    /// The environment without its innermost scope, or nothing where it has
    /// one scope only.
    pub fn into_enclosing(self) -> (r: Option<Environment>)
        ensures
            match r {
                Some(outer) => outer@ == self@.drop_first(),
                None => self@.len() == 1,
            },
    {
        match self.enclosing {
            Some(outer) => {
                assert(outer@ =~= self@.drop_first());
                Some(*outer)
            },
            None => None,
        }
    }

    /// Binds `name` to `value` in the innermost scope, whether or not the
    /// scope bound it before.
    pub fn define(&mut self, name: String, value: LiteralKind)
        ensures
            final(self)@ == defined(old(self)@, name@, value@),
    {
        self.values.insert(name, value);
        assert(bindings(self.values@) =~= bindings(old(self).values@).insert(name@, value@));
        assert(self@ =~= defined(old(self)@, name@, value@));
    }

    /// The value of the variable that `name` names: that of the innermost
    /// scope that binds it. Where no scope does, the variable is undefined.
    pub fn get(&self, name: &Token) -> (r: Result<LiteralKind, Exit>)
        ensures
            match lookup(self@, name@.lexeme) {
                Some(value) => r matches Ok(v) && v@ == value,
                None => r matches Err(e) && e@ == undefined_variable(name@),
            },
        decreases self@.len(),
    {
        match self.values.get(name.lexeme.as_str()) {
            Some(value) => Ok(value.clone()),
            None => match &self.enclosing {
                Some(outer) => {
                    assert(outer@ =~= self@.drop_first());
                    outer.get(name)
                },
                None => {
                    assert(self@.drop_first() =~= Seq::<Scope>::empty());
                    Err(Exit::RuntimeError(Fault::undefined_variable(name)))
                },
            },
        }
    }

    /// Gives `value` to the variable that `name` names, in the innermost
    /// scope that binds it. Where no scope does, the variable is undefined
    /// and nothing changes.
    pub fn assign(&mut self, name: &Token, value: LiteralKind) -> (r: Result<(), Exit>)
        ensures
            match assigned(old(self)@, name@.lexeme, value@) {
                Some(scopes) => r is Ok && final(self)@ == scopes,
                None => {
                    &&& final(self)@ == old(self)@
                    &&& r matches Err(e) && e@ == undefined_variable(name@)
                },
            },
        decreases old(self)@.len(),
    {
        if self.values.contains_key(name.lexeme.as_str()) {
            self.values.insert(name.lexeme.clone(), value);
            assert(bindings(self.values@) =~= bindings(old(self).values@).insert(
                name@.lexeme,
                value@,
            ));
            assert(self@ =~= old(self)@.update(0, old(self)@[0].insert(name@.lexeme, value@)));
            Ok(())
        } else {
            match &mut self.enclosing {
                Some(outer) => {
                    assert(outer@ =~= old(self)@.drop_first());
                    let r = outer.assign(name, value);
                    proof {
                        if r is Ok {
                            assert(self@ =~= seq![old(self)@[0]] + assigned(
                                old(self)@.drop_first(),
                                name@.lexeme,
                                value@,
                            )->0);
                        } else {
                            assert(self@ =~= old(self)@);
                        }
                    }
                    r
                },
                None => {
                    assert(self@.drop_first() =~= Seq::<Scope>::empty());
                    Err(Exit::RuntimeError(Fault::undefined_variable(name)))
                },
            }
        }
    }
}

/// A variable that was defined can be read in the same scope, with the
/// value that it was defined with.
pub proof fn defined_then_visible(scopes: Seq<Scope>, name: Seq<char>, value: LiteralValue)
    requires
        scopes.len() >= 1,
    ensures
        lookup(defined(scopes, name, value), name) == Some(value),
{
}

/// What is defined in the scope of a block does not outlive the block: once
/// the innermost scope has been left, the outer scopes are what they were
/// before the definition, and a name reads as it did outside the block.
pub proof fn defined_in_block_then_gone(
    inner: Scope,
    outer: Seq<Scope>,
    name: Seq<char>,
    value: LiteralValue,
)
    ensures
        defined(seq![inner] + outer, name, value).drop_first() == outer,
        lookup(defined(seq![inner] + outer, name, value).drop_first(), name) == lookup(
            outer,
            name,
        ),
{
    assert(defined(seq![inner] + outer, name, value).drop_first() =~= outer);
}

} // verus!
