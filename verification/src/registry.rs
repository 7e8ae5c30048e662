//! The process-wide catalogue of function, trait and value-type
//! descriptors. Grow-only with stable ids; lookups are infallible for
//! valid ids.

use vstd::prelude::*;

use crate::error::EngineError;
use crate::ids::{FunctionId, TraitTypeId, ValueTypeId};

verus! {

/// A registered native function. The callable itself lives with the task
/// driver; the registry holds its stable id and name.
pub struct FunctionDescriptor {
    pub name: String,
}

/// A registered trait type with its named methods.
pub struct TraitDescriptor {
    pub name: String,
}

/// One entry of the dynamic-dispatch table: the implementation of a trait
/// method by a concrete value type.
pub struct TraitMethod {
    pub value_type: ValueTypeId,
    pub trait_type: TraitTypeId,
    pub method: String,
    pub function: FunctionId,
}

/// A registered concrete value type: its name and the traits it
/// implements.
pub struct ValueTypeDescriptor {
    pub name: String,
    pub traits: Vec<TraitTypeId>,
}

/// Immutable-after-startup catalogue mapping stable ids to descriptors,
/// plus the `(trait, value type, method name) -> function` dispatch table.
pub struct Registry {
    pub functions: Vec<FunctionDescriptor>,
    pub traits: Vec<TraitDescriptor>,
    pub value_types: Vec<ValueTypeDescriptor>,
    pub methods: Vec<TraitMethod>,
}

/// First dispatch-table entry matching a value type, trait and method
/// name, scanning from the front.
pub open spec fn method_lookup(
    s: Seq<TraitMethod>,
    v: ValueTypeId,
    t: TraitTypeId,
    name: Seq<char>,
) -> Option<FunctionId>
    decreases s.len(),
{
    if s.len() == 0 {
        None
    } else if s[0].value_type == v && s[0].trait_type == t && s[0].method@ == name {
        Some(s[0].function)
    } else {
        method_lookup(s.drop_first(), v, t, name)
    }
}

impl Registry {
    /// Whether a function id was issued by this registry.
    pub open spec fn valid_function(self, f: FunctionId) -> bool {
        f.0 < self.functions@.len()
    }

    /// Whether a trait id was issued by this registry.
    pub open spec fn valid_trait(self, t: TraitTypeId) -> bool {
        t.0 < self.traits@.len()
    }

    /// Whether a value-type id was issued by this registry.
    pub open spec fn valid_value_type(self, v: ValueTypeId) -> bool {
        v.0 < self.value_types@.len()
    }

    /// Whether the value type is registered as implementing the trait.
    pub open spec fn spec_has_trait(self, v: ValueTypeId, t: TraitTypeId) -> bool {
        self.valid_value_type(v) && self.value_types@[v.0 as int].traits@.contains(t)
    }

    /// The dispatch-table resolution of a trait method on a value type.
    pub open spec fn spec_trait_method(
        self,
        v: ValueTypeId,
        t: TraitTypeId,
        name: Seq<char>,
    ) -> Option<FunctionId> {
        method_lookup(self.methods@, v, t, name)
    }

    /// An empty catalogue.
    pub fn new() -> (r: Self)
        ensures
            r.functions@.len() == 0,
            r.traits@.len() == 0,
            r.value_types@.len() == 0,
            r.methods@.len() == 0,
    {
        Registry {
            functions: Vec::new(),
            traits: Vec::new(),
            value_types: Vec::new(),
            methods: Vec::new(),
        }
    }

    /// Register a native function under a fresh stable id.
    pub fn register_function(&mut self, name: String) -> (r: FunctionId)
        requires
            old(self).functions@.len() < u32::MAX,
        ensures
            r.0 == old(self).functions@.len(),
            final(self).functions@ == old(self).functions@.push(
                FunctionDescriptor { name: name },
            ),
            final(self).traits@ == old(self).traits@,
            final(self).value_types@ == old(self).value_types@,
            final(self).methods@ == old(self).methods@,
    {
        let id = FunctionId(self.functions.len() as u32);
        self.functions.push(FunctionDescriptor { name });
        id
    }

    /// Register a trait type under a fresh stable id.
    pub fn register_trait(&mut self, name: String) -> (r: TraitTypeId)
        requires
            old(self).traits@.len() < u32::MAX,
        ensures
            r.0 == old(self).traits@.len(),
            final(self).traits@ == old(self).traits@.push(TraitDescriptor { name: name }),
            final(self).functions@ == old(self).functions@,
            final(self).value_types@ == old(self).value_types@,
            final(self).methods@ == old(self).methods@,
    {
        let id = TraitTypeId(self.traits.len() as u32);
        self.traits.push(TraitDescriptor { name });
        id
    }

    /// Register a concrete value type, with the traits it implements,
    /// under a fresh stable id.
    pub fn register_value_type(&mut self, name: String, traits: Vec<TraitTypeId>) -> (r:
        ValueTypeId)
        requires
            old(self).value_types@.len() < u32::MAX,
        ensures
            r.0 == old(self).value_types@.len(),
            final(self).value_types@ == old(self).value_types@.push(
                ValueTypeDescriptor { name: name, traits: traits },
            ),
            final(self).functions@ == old(self).functions@,
            final(self).traits@ == old(self).traits@,
            final(self).methods@ == old(self).methods@,
    {
        let id = ValueTypeId(self.value_types.len() as u32);
        self.value_types.push(ValueTypeDescriptor { name, traits });
        id
    }

    /// Record that `value_type`'s implementation of `(trait, method)` is
    /// the registered function `function`.
    pub fn register_trait_method(
        &mut self,
        value_type: ValueTypeId,
        trait_type: TraitTypeId,
        method: String,
        function: FunctionId,
    )
        ensures
            final(self).methods@ == old(self).methods@.push(
                TraitMethod { value_type, trait_type, method: method, function },
            ),
            final(self).functions@ == old(self).functions@,
            final(self).traits@ == old(self).traits@,
            final(self).value_types@ == old(self).value_types@,
    {
        self.methods.push(TraitMethod { value_type, trait_type, method, function });
    }

    /// Whether the value type implements the trait.
    pub fn has_trait(&self, v: ValueTypeId, t: TraitTypeId) -> (r: bool)
        requires
            self.valid_value_type(v),
        ensures
            r == self.spec_has_trait(v, t),
    {
        let traits = &self.value_types[v.0 as usize].traits;
        let mut i: usize = 0;
        while i < traits.len()
            invariant
                i <= traits@.len(),
                traits@ == self.value_types@[v.0 as int].traits@,
                self.valid_value_type(v),
                forall|j: int| 0 <= j < i ==> traits@[j] != t,
            decreases traits@.len() - i,
        {
            if traits[i] == t {
                return true;
            }
            i += 1;
        }
        false
    }

    /// The traits a value type implements, for diagnostics.
    pub fn traits_of(&self, v: ValueTypeId) -> (r: Vec<TraitTypeId>)
        requires
            self.valid_value_type(v),
        ensures
            r@ == self.value_types@[v.0 as int].traits@,
    {
        let traits = &self.value_types[v.0 as usize].traits;
        let mut r: Vec<TraitTypeId> = Vec::new();
        let mut i: usize = 0;
        while i < traits.len()
            invariant
                i <= traits@.len(),
                traits@ == self.value_types@[v.0 as int].traits@,
                self.valid_value_type(v),
                r@ == traits@.take(i as int),
            decreases traits@.len() - i,
        {
            r.push(traits[i]);
            proof {
                assert(r@ =~= traits@.take(i + 1 as int));
            }
            i += 1;
        }
        proof {
            assert(r@ =~= traits@);
        }
        r
    }

    /// Look the trait method up in the dispatch table: the resolved
    /// function on a hit, nothing on a miss.
    pub fn get_trait_method(&self, v: ValueTypeId, t: TraitTypeId, name: &String) -> (r: Option<
        FunctionId,
    >)
        ensures
            r == self.spec_trait_method(v, t, name@),
    {
        let mut i: usize = 0;
        proof {
            assert(self.methods@.skip(0) =~= self.methods@);
        }
        while i < self.methods.len()
            invariant
                i <= self.methods@.len(),
                method_lookup(self.methods@.skip(i as int), v, t, name@) == method_lookup(
                    self.methods@,
                    v,
                    t,
                    name@,
                ),
            decreases self.methods@.len() - i,
        {
            let m = &self.methods[i];
            proof {
                assert(self.methods@.skip(i as int)[0] == self.methods@[i as int]);
                assert(self.methods@.skip(i as int).drop_first() =~= self.methods@.skip(
                    i + 1 as int,
                ));
            }
            if m.value_type == v && m.trait_type == t && m.method == *name {
                return Some(m.function);
            }
            i += 1;
        }
        proof {
            assert(self.methods@.skip(self.methods@.len() as int) =~= Seq::<TraitMethod>::empty());
        }
        None
    }
}

/// The names of the listed traits, each behind one space, in order.
pub open spec fn trait_list_spec(reg: Registry, ts: Seq<TraitTypeId>) -> Seq<char>
    decreases ts.len(),
{
    if ts.len() == 0 {
        Seq::empty()
    } else {
        trait_list_spec(reg, ts.drop_last()) + seq![' '] + reg.traits@[ts.last().0 as int].name@
    }
}

impl Registry {
    /// The diagnostic text of a trait-resolution failure over a value
    /// described by `value_label`, naming what the value's type does
    /// implement.
    pub fn describe_resolve_error(&self, value_label: &str, e: &EngineError) -> (r: String)
        requires
            e matches EngineError::TraitNotImplemented { trait_type, implemented } ==> self.valid_trait(*trait_type)
                && forall|i: int|
                0 <= i < implemented@.len() ==> self.valid_trait(#[trigger] implemented@[i]),
            e matches EngineError::MethodMissing { trait_type, .. } ==> self.valid_trait(*trait_type),
        ensures
            match *e {
                EngineError::TraitNotImplemented { trait_type, ref implemented } => r@
                    == value_label@ + " doesn't implement "@ + self.traits@[trait_type.0 as int].name@
                    + " (only"@ + trait_list_spec(*self, implemented@) + ")"@,
                EngineError::MethodMissing { trait_type, ref method } => r@ == value_label@
                    + " implements trait "@ + self.traits@[trait_type.0 as int].name@
                    + ", but method "@ + method@ + " is missing"@,
                EngineError::CellEmpty => r@ == "Cell is empty"@,
                EngineError::TypeMismatch => r@ == "Unexpected type in cell"@,
                EngineError::Untyped => r@ == "Cell content is untyped"@,
                EngineError::TaskError { ref message } => r@ == message@,
                EngineError::TaskPanicked { ref message } => match message {
                    Some(m) => r@ == m@,
                    None => r@ == "task panicked"@,
                },
                EngineError::CycleDetected => r@ == "cycle detected while resolving"@,
            },
    {
        match e {
            EngineError::TraitNotImplemented { trait_type, implemented } => {
                let mut out = String::from_str(value_label);
                out.append(" doesn't implement ");
                out.append(self.traits[trait_type.0 as usize].name.as_str());
                out.append(" (only");
                let mut i: usize = 0;
                proof {
                    assert(implemented@.take(0) =~= Seq::<TraitTypeId>::empty());
                    assert(out@ =~= value_label@ + " doesn't implement "@
                        + self.traits@[trait_type.0 as int].name@ + " (only"@ + trait_list_spec(
                        *self,
                        implemented@.take(0),
                    ));
                }
                while i < implemented.len()
                    invariant
                        i <= implemented@.len(),
                        forall|j: int|
                            0 <= j < implemented@.len() ==> self.valid_trait(
                                #[trigger] implemented@[j],
                            ),
                        out@ == value_label@ + " doesn't implement "@
                            + self.traits@[trait_type.0 as int].name@ + " (only"@
                            + trait_list_spec(*self, implemented@.take(i as int)),
                    decreases implemented@.len() - i,
                {
                    out.append(" ");
                    out.append(self.traits[implemented[i].0 as usize].name.as_str());
                    proof {
                        reveal_strlit(" ");
                        assert(" "@ =~= seq![' ']);
                        assert(implemented@.take(i + 1 as int).drop_last() =~= implemented@.take(
                            i as int,
                        ));
                        assert(implemented@.take(i + 1 as int).last() == implemented@[i as int]);
                        assert(out@ =~= value_label@ + " doesn't implement "@
                            + self.traits@[trait_type.0 as int].name@ + " (only"@
                            + trait_list_spec(*self, implemented@.take(i + 1 as int)));
                    }
                    i += 1;
                }
                out.append(")");
                proof {
                    assert(implemented@.take(implemented@.len() as int) =~= implemented@);
                }
                out
            },
            EngineError::MethodMissing { trait_type, method } => {
                let mut out = String::from_str(value_label);
                out.append(" implements trait ");
                out.append(self.traits[trait_type.0 as usize].name.as_str());
                out.append(", but method ");
                out.append(method.as_str());
                out.append(" is missing");
                out
            },
            EngineError::CellEmpty => String::from_str("Cell is empty"),
            EngineError::TypeMismatch => String::from_str("Unexpected type in cell"),
            EngineError::Untyped => String::from_str("Cell content is untyped"),
            EngineError::TaskError { message } => message.clone(),
            EngineError::TaskPanicked { message } => match message {
                Some(m) => m.clone(),
                None => String::from_str("task panicked"),
            },
            EngineError::CycleDetected => String::from_str("cycle detected while resolving"),
        }
    }
}

} // verus!
