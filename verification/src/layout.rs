//! Descriptor-set layouts: which bindings a set has and what each one is.

use vstd::prelude::*;

verus! {

pub const DESCRIPTOR_TYPE_SAMPLED_IMAGE: u32 = 2;
pub const DESCRIPTOR_TYPE_STORAGE_IMAGE: u32 = 3;
pub const DESCRIPTOR_TYPE_UNIFORM_BUFFER: u32 = 6;
pub const DESCRIPTOR_TYPE_STORAGE_BUFFER: u32 = 7;
pub const DESCRIPTOR_TYPE_UNIFORM_BUFFER_DYNAMIC: u32 = 8;

pub const SHADER_STAGE_ALL_GRAPHICS: u32 = 0x1F;
pub const SHADER_STAGE_COMPUTE: u32 = 0x20;
pub const SHADER_STAGE_RAYGEN: u32 = 0x100;

/// What reflection knows of one binding.
#[derive(Clone, Copy, Debug, PartialEq, Eq, Structural)]
pub struct DescriptorInfo {
    pub ty: u32,
    pub is_bindless: bool,
    pub stages: u32,
}

/// One binding of a set: its number and what is bound there.
#[derive(Clone, Copy, Debug, PartialEq, Eq, Structural)]
pub struct Binding {
    pub binding: u32,
    pub info: DescriptorInfo,
}

/// Some entry of `bindings` has the number `binding`.
pub open spec fn has_binding(bindings: Seq<Binding>, binding: u32) -> bool {
    exists|i: int| 0 <= i < bindings.len() && (#[trigger] bindings[i]).binding == binding
}

/// Some entry of `bindings` has the number `binding` and the type `ty`.
pub open spec fn describes(bindings: Seq<Binding>, binding: u32, ty: u32) -> bool {
    exists|i: int|
        0 <= i < bindings.len() && (#[trigger] bindings[i]).binding == binding
            && bindings[i].info.ty == ty
}

/// Entry `i` of `required` has a counterpart in `declared`.
pub open spec fn met(required: Seq<Binding>, declared: Seq<Binding>, i: int) -> bool {
    describes(declared, required[i].binding, required[i].info.ty)
}

/// The first entry of `required`, at or after `from`, that `declared` does not
/// describe, or the length of `required` where there is none.
pub open spec fn first_unmet(required: Seq<Binding>, declared: Seq<Binding>, from: int) -> int
    decreases required.len() - from,
{
    if from < 0 || from >= required.len() {
        required.len() as int
    } else if !met(required, declared, from) {
        from
    } else {
        first_unmet(required, declared, from + 1)
    }
}

/// `declared` describes every binding that `required` has.
pub open spec fn covers(declared: Seq<Binding>, required: Seq<Binding>) -> bool {
    first_unmet(required, declared, 0) == required.len()
}

/// `first_unmet` finds the least entry that is not met.
pub proof fn lemma_first_unmet(required: Seq<Binding>, declared: Seq<Binding>, from: int)
    requires
        0 <= from <= required.len(),
    ensures
        from <= first_unmet(required, declared, from) <= required.len(),
        first_unmet(required, declared, from) < required.len() ==> !met(
            required,
            declared,
            first_unmet(required, declared, from),
        ),
        forall|j: int|
            from <= j < first_unmet(required, declared, from) ==> met(required, declared, j),
    decreases required.len() - from,
{
    if from < required.len() && met(required, declared, from) {
        lemma_first_unmet(required, declared, from + 1);
    }
}

/// The layout of one descriptor set.
#[derive(Debug)]
pub struct SetLayout {
    pub bindings: Vec<Binding>,
}

impl SetLayout {
    pub open spec fn view(&self) -> Seq<Binding> {
        self.bindings@
    }

    /// A set with no bindings.
    pub fn new() -> (layout: SetLayout)
        ensures
            layout@ == Seq::<Binding>::empty(),
    {
        SetLayout { bindings: Vec::new() }
    }

    /// Adds a binding to the set.
    pub fn insert(&mut self, binding: u32, info: DescriptorInfo)
        ensures
            final(self)@ == old(self)@.push(Binding { binding, info }),
    {
        self.bindings.push(Binding { binding, info });
    }

    pub fn len(&self) -> (n: usize)
        ensures
            n == self@.len(),
    {
        self.bindings.len()
    }

    pub fn is_empty(&self) -> (empty: bool)
        ensures
            empty == (self@.len() == 0),
    {
        self.bindings.len() == 0
    }

    /// Whether the set has a binding of that number.
    pub fn contains_key(&self, binding: u32) -> (found: bool)
        ensures
            found == has_binding(self@, binding),
    {
        let mut i: usize = 0;
        while i < self.bindings.len()
            invariant
                i <= self.bindings.len(),
                forall|j: int| 0 <= j < i ==> (#[trigger] self@[j]).binding != binding,
            decreases self.bindings.len() - i,
        {
            if self.bindings[i].binding == binding {
                return true;
            }
            i += 1;
        }
        false
    }

    /// Whether the set has a binding of that number and type.
    pub fn contains(&self, binding: u32, ty: u32) -> (found: bool)
        ensures
            found == describes(self@, binding, ty),
    {
        let mut i: usize = 0;
        while i < self.bindings.len()
            invariant
                i <= self.bindings.len(),
                forall|j: int|
                    0 <= j < i ==> !((#[trigger] self@[j]).binding == binding && self@[j].info.ty
                        == ty),
            decreases self.bindings.len() - i,
        {
            if self.bindings[i].binding == binding && self.bindings[i].info.ty == ty {
                return true;
            }
            i += 1;
        }
        false
    }

    /// The number of the first binding of this set that `declared` does not
    /// describe, if there is one.
    pub fn first_missing_from(&self, declared: &SetLayout) -> (missing: Option<u32>)
        ensures
            missing is None <==> covers(declared@, self@),
            missing is Some ==> missing->0 == self@[first_unmet(self@, declared@, 0)].binding,
    {
        let mut i: usize = 0;
        while i < self.bindings.len()
            invariant
                i <= self.bindings.len(),
                first_unmet(self@, declared@, 0) == first_unmet(self@, declared@, i as int),
            decreases self.bindings.len() - i,
        {
            let wanted = self.bindings[i];
            if !declared.contains(wanted.binding, wanted.info.ty) {
                return Some(wanted.binding);
            }
            i += 1;
        }
        None
    }

    /// Whether both sets list the same bindings in the same order.
    pub fn same_as(&self, other: &SetLayout) -> (same: bool)
        ensures
            same == (self@ == other@),
    {
        if self.bindings.len() != other.bindings.len() {
            return false;
        }
        let mut i: usize = 0;
        while i < self.bindings.len()
            invariant
                i <= self.bindings.len(),
                self.bindings.len() == other.bindings.len(),
                forall|j: int| 0 <= j < i ==> self@[j] == other@[j],
            decreases self.bindings.len() - i,
        {
            if self.bindings[i] != other.bindings[i] {
                return false;
            }
            i += 1;
        }
        assert(self@ =~= other@);
        true
    }

    /// A copy of the set.
    pub fn duplicate(&self) -> (copy: SetLayout)
        ensures
            copy@ == self@,
    {
        let mut bindings: Vec<Binding> = Vec::new();
        let mut i: usize = 0;
        while i < self.bindings.len()
            invariant
                i <= self.bindings.len(),
                bindings@ == self@.take(i as int),
            decreases self.bindings.len() - i,
        {
            bindings.push(self.bindings[i]);
            assert(self@.take(i + 1) =~= self@.take(i as int).push(self@[i as int]));
            i += 1;
        }
        assert(self@.take(i as int) =~= self@);
        SetLayout { bindings }
    }
}

/// The views of a list of sets, set by set.
pub open spec fn set_views(sets: Seq<SetLayout>) -> Seq<Seq<Binding>> {
    Seq::new(sets.len(), |i: int| sets[i]@)
}

/// A layout that a pipeline configuration declares for one set, in place of
/// what reflection finds.
#[derive(Debug)]
pub struct SetOverride {
    pub set_index: u32,
    pub layout: SetLayout,
}

/// The first override, at or after `from`, that is for set `set`, or the
/// length of `overrides` where there is none.
pub open spec fn override_for(overrides: Seq<SetOverride>, set: int, from: int) -> int
    decreases overrides.len() - from,
{
    if from < 0 || from >= overrides.len() {
        overrides.len() as int
    } else if overrides[from].set_index == set {
        from
    } else {
        override_for(overrides, set, from + 1)
    }
}

/// Set `set` as reflection found it agrees with the configuration: no override
/// is declared for it, or the declared layout describes all that the shader
/// requires there.
pub open spec fn set_agrees(reflected: Seq<Binding>, overrides: Seq<SetOverride>, set: int) -> bool {
    let o = override_for(overrides, set, 0);
    o < overrides.len() ==> covers(overrides[o].layout@, reflected)
}

/// The layout that set `set` ends up with: the declared one where there is an
/// override, else the reflected one.
pub open spec fn resolved_set(reflected: Seq<Binding>, overrides: Seq<SetOverride>, set: int) -> Seq<
    Binding,
> {
    let o = override_for(overrides, set, 0);
    if o < overrides.len() {
        overrides[o].layout@
    } else {
        reflected
    }
}

/// The first set, at or after `from`, that does not agree with the
/// configuration, or the number of sets where all agree.
pub open spec fn first_disagreeing(
    reflected: Seq<SetLayout>,
    overrides: Seq<SetOverride>,
    from: int,
) -> int
    decreases reflected.len() - from,
{
    if from < 0 || from >= reflected.len() {
        reflected.len() as int
    } else if !set_agrees(reflected[from]@, overrides, from) {
        from
    } else {
        first_disagreeing(reflected, overrides, from + 1)
    }
}

/// Where reflection and configuration disagree: the set, and the first binding
/// there that the shader requires and the declared layout does not describe.
#[derive(Clone, Copy, Debug, PartialEq, Eq, Structural)]
pub struct LayoutMismatch {
    pub set_index: usize,
    pub binding: u32,
}

/// What `resolve_set_layouts` returns.
pub open spec fn resolved(reflected: Seq<SetLayout>, overrides: Seq<SetOverride>) -> Result<
    Seq<Seq<Binding>>,
    LayoutMismatch,
> {
    let s = first_disagreeing(reflected, overrides, 0);
    if s < reflected.len() {
        let declared = overrides[override_for(overrides, s, 0)].layout@;
        Err(
            LayoutMismatch {
                set_index: s as usize,
                binding: reflected[s]@[first_unmet(reflected[s]@, declared, 0)].binding,
            },
        )
    } else {
        Ok(Seq::new(reflected.len(), |i: int| resolved_set(reflected[i]@, overrides, i)))
    }
}

/// The index of the first override for `set`, if there is one.
pub fn find_override(overrides: &Vec<SetOverride>, set: usize) -> (found: Option<usize>)
    ensures
        found is None <==> override_for(overrides@, set as int, 0) == overrides@.len(),
        found is Some ==> found->0 == override_for(overrides@, set as int, 0) && found->0
            < overrides@.len(),
{
    let mut i: usize = 0;
    while i < overrides.len()
        invariant
            i <= overrides.len(),
            override_for(overrides@, set as int, 0) == override_for(overrides@, set as int, i as int),
        decreases overrides.len() - i,
    {
        if overrides[i].set_index as usize == set {
            return Some(i);
        }
        i += 1;
    }
    None
}

/// Works out the layout of every set of a pipeline from what reflection found
/// and what the configuration declares, or says where the two disagree.
pub fn resolve_set_layouts(reflected: &Vec<SetLayout>, overrides: &Vec<SetOverride>) -> (result:
    Result<Vec<SetLayout>, LayoutMismatch>)
    ensures
        match result {
            Ok(sets) => resolved(reflected@, overrides@) == Ok::<
                Seq<Seq<Binding>>,
                LayoutMismatch,
            >(set_views(sets@)),
            Err(mismatch) => resolved(reflected@, overrides@) == Err::<
                Seq<Seq<Binding>>,
                LayoutMismatch,
            >(mismatch),
        },
{
    let mut sets: Vec<SetLayout> = Vec::new();
    let mut s: usize = 0;
    while s < reflected.len()
        invariant
            s <= reflected.len(),
            sets@.len() == s,
            first_disagreeing(reflected@, overrides@, 0) == first_disagreeing(
                reflected@,
                overrides@,
                s as int,
            ),
            forall|i: int|
                0 <= i < s ==> (#[trigger] sets@[i])@ == resolved_set(reflected@[i]@, overrides@, i),
        decreases reflected.len() - s,
    {
        let ghost before = sets@;
        match find_override(overrides, s) {
            None => {
                sets.push(reflected[s].duplicate());
            },
            Some(o) => {
                match reflected[s].first_missing_from(&overrides[o].layout) {
                    Some(binding) => {
                        return Err(LayoutMismatch { set_index: s, binding });
                    },
                    None => {
                        sets.push(overrides[o].layout.duplicate());
                    },
                }
            },
        }
        assert forall|i: int| 0 <= i < s + 1 implies (#[trigger] sets@[i])@ == resolved_set(
            reflected@[i]@,
            overrides@,
            i,
        ) by {
            if i < s {
                assert(sets@[i] == before[i]);
            }
        }
        s += 1;
    }
    assert(set_views(sets@) =~= Seq::new(
        reflected@.len(),
        |i: int| resolved_set(reflected@[i]@, overrides@, i),
    ));
    Ok(sets)
}

} // verus!
