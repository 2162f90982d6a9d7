//! Pixel formats that can be rendered to.

use indexmap::IndexSet;
use vstd::prelude::*;

verus! {

/// The contents can be rendered to.
pub const FEATURE_COLOR_ATTACHMENT: u32 = 0x80;

/// The contents can be written by compute shaders.
pub const FEATURE_STORAGE_IMAGE: u32 = 0x2;

/// What a device offers for a format with a modifier.
#[derive(Debug, Clone, Copy, PartialEq, Eq, Structural)]
pub struct ModifierProps {
    pub modifier: u64,
    pub features: u32,
}

/// What a device offers for a format.
#[derive(Debug)]
pub struct FormatProps {
    pub code: u32,
    /// The same format without alpha.
    pub opaque: Option<u32>,
    /// The modifiers, if the device can be asked.
    pub modifiers: Option<Vec<ModifierProps>>,
}

/// Whether a format with a modifier can be rendered to.
pub open spec fn renderable(features: u32) -> bool {
    features & FEATURE_COLOR_ATTACHMENT == FEATURE_COLOR_ATTACHMENT || features
        & FEATURE_STORAGE_IMAGE == FEATURE_STORAGE_IMAGE
}

/// The pairs with one more at the end, unless it is there.
pub open spec fn with_pair(pairs: Seq<(u32, u64)>, pair: (u32, u64)) -> Seq<(u32, u64)> {
    if pairs.contains(pair) {
        pairs
    } else {
        pairs.push(pair)
    }
}

/// The pairs with those of a modifier of a format.
pub open spec fn with_modifier(
    pairs: Seq<(u32, u64)>,
    code: u32,
    opaque: Option<u32>,
    props: ModifierProps,
) -> Seq<(u32, u64)> {
    if !renderable(props.features) {
        pairs
    } else {
        let alpha = with_pair(pairs, (code, props.modifier));
        match opaque {
            Some(other) => with_pair(alpha, (other, props.modifier)),
            None => alpha,
        }
    }
}

/// The pairs with those of all modifiers of a format.
pub open spec fn with_modifiers(
    pairs: Seq<(u32, u64)>,
    code: u32,
    opaque: Option<u32>,
    modifiers: Seq<ModifierProps>,
) -> Seq<(u32, u64)>
    decreases modifiers.len(),
{
    if modifiers.len() == 0 {
        pairs
    } else {
        with_modifier(
            with_modifiers(pairs, code, opaque, modifiers.drop_last()),
            code,
            opaque,
            modifiers.last(),
        )
    }
}

/// The pairs of all formats; nothing if the device cannot be asked about one.
pub open spec fn supported_pairs(formats: Seq<FormatProps>) -> Option<Seq<(u32, u64)>>
    decreases formats.len(),
{
    if formats.len() == 0 {
        Some(seq![])
    } else {
        let last = formats.last();
        match (supported_pairs(formats.drop_last()), last.modifiers) {
            (Some(pairs), Some(modifiers)) => Some(
                with_modifiers(pairs, last.code, last.opaque, modifiers@),
            ),
            _ => None,
        }
    }
}

/// The insertion ordered set of the `indexmap` crate.
#[verifier::external_type_specification]
#[verifier::external_body]
#[verifier::reject_recursive_types(T)]
#[verifier::reject_recursive_types(S)]
pub struct ExIndexSet<T, S>(IndexSet<T, S>);

/// The pairs of a format code and a modifier that a set holds, in the order in which they came.
pub uninterp spec fn set_pairs(set: IndexSet<(u32, u64)>) -> Seq<(u32, u64)>;

/// Calls `IndexSet::new`: a set without any pairs.
#[verifier::external_body]
fn empty_set() -> (set: IndexSet<(u32, u64)>)
    ensures
        set_pairs(set).len() == 0,
{
    IndexSet::new()
}

/// Calls `IndexSet::insert`: a pair that is not there yet comes last; one that is there stays
/// where it is.
#[verifier::external_body]
fn insert_pair(set: &mut IndexSet<(u32, u64)>, code: u32, modifier: u64)
    ensures
        set_pairs(*final(set)) == with_pair(set_pairs(*old(set)), (code, modifier)),
{
    set.insert((code, modifier));
}

/// Calls `IndexSet::into_iter`: hands the pairs out in the order in which they came.
#[verifier::external_body]
fn take_pairs(set: IndexSet<(u32, u64)>) -> (pairs: Vec<(u32, u64)>)
    ensures
        pairs@ == set_pairs(set),
{
    set.into_iter().collect()
}

/// The formats and modifiers that can be rendered to, each once, in the order of the formats.
pub fn supported_formats(formats: &Vec<FormatProps>) -> (pairs: Option<Vec<(u32, u64)>>)
    ensures
        match (pairs, supported_pairs(formats@)) {
            (Some(pairs), Some(expected)) => pairs@ == expected,
            (None, None) => true,
            _ => false,
        },
{
    let mut set: IndexSet<(u32, u64)> = empty_set();
    let mut i: usize = 0;
    assert(formats@.take(0) =~= seq![]);
    assert(set_pairs(set) =~= seq![]);
    assert(formats@.take(formats@.len() as int) =~= formats@);
    while i < formats.len()
        invariant
            i <= formats.len(),
            supported_pairs(formats@.take(i as int)) == Some(set_pairs(set)),
            formats@.take(formats@.len() as int) == formats@,
        decreases formats.len() - i,
    {
        let format: &FormatProps = &formats[i];
        proof {
            assert(formats@.take(i + 1).last() == formats@[i as int]);
            assert(formats@.take(i + 1).drop_last() =~= formats@.take(i as int));
        }
        match &format.modifiers {
            Some(modifiers) => {
                add_modifiers(&mut set, format.code, format.opaque, modifiers);
            },
            None => {
                proof {
                    lemma_unknown_stays(formats@, i + 1);
                }
                return None;
            },
        }
        i = i + 1;
    }
    Some(take_pairs(set))
}

fn add_modifiers(
    set: &mut IndexSet<(u32, u64)>,
    code: u32,
    opaque: Option<u32>,
    modifiers: &Vec<ModifierProps>,
)
    ensures
        set_pairs(*final(set)) == with_modifiers(set_pairs(*old(set)), code, opaque, modifiers@),
{
    let ghost start = set_pairs(*set);
    let mut i: usize = 0;
    assert(modifiers@.take(0) =~= seq![]);
    while i < modifiers.len()
        invariant
            i <= modifiers.len(),
            set_pairs(*set) == with_modifiers(start, code, opaque, modifiers@.take(i as int)),
        decreases modifiers.len() - i,
    {
        let props: ModifierProps = modifiers[i];
        proof {
            assert(modifiers@.take(i + 1).last() == props);
            assert(modifiers@.take(i + 1).drop_last() =~= modifiers@.take(i as int));
        }
        if props.features & FEATURE_COLOR_ATTACHMENT == FEATURE_COLOR_ATTACHMENT || props.features
            & FEATURE_STORAGE_IMAGE == FEATURE_STORAGE_IMAGE {
            insert_pair(set, code, props.modifier);
            if let Some(other) = opaque {
                insert_pair(set, other, props.modifier);
            }
        }
        i = i + 1;
    }
    assert(modifiers@.take(i as int) =~= modifiers@);
}

proof fn lemma_unknown_stays(formats: Seq<FormatProps>, n: int)
    requires
        0 <= n <= formats.len(),
        supported_pairs(formats.take(n)) is None,
    ensures
        supported_pairs(formats) is None,
    decreases formats.len() - n,
{
    if n == formats.len() {
        assert(formats.take(n) =~= formats);
    } else {
        assert(formats.take(n + 1).drop_last() =~= formats.take(n));
        lemma_unknown_stays(formats, n + 1);
    }
}

/// No pair is listed twice.
pub proof fn law_formats_are_listed_once(formats: Seq<FormatProps>)
    ensures
        match supported_pairs(formats) {
            Some(pairs) => pairs.no_duplicates(),
            None => true,
        },
    decreases formats.len(),
{
    if formats.len() > 0 {
        law_formats_are_listed_once(formats.drop_last());
        if let (Some(pairs), Some(modifiers)) = (
            supported_pairs(formats.drop_last()),
            formats.last().modifiers,
        ) {
            lemma_modifiers_once(pairs, formats.last().code, formats.last().opaque, modifiers@);
        }
    }
}

proof fn lemma_modifiers_once(
    pairs: Seq<(u32, u64)>,
    code: u32,
    opaque: Option<u32>,
    modifiers: Seq<ModifierProps>,
)
    requires
        pairs.no_duplicates(),
    ensures
        with_modifiers(pairs, code, opaque, modifiers).no_duplicates(),
    decreases modifiers.len(),
{
    if modifiers.len() > 0 {
        lemma_modifiers_once(pairs, code, opaque, modifiers.drop_last());
    }
}

/// Where a format with alpha can be rendered to, so can the one without, with the same modifier.
pub proof fn law_opaque_formats_come_along(
    pairs: Seq<(u32, u64)>,
    code: u32,
    opaque: u32,
    props: ModifierProps,
)
    requires
        renderable(props.features),
    ensures
        with_modifier(pairs, code, Some(opaque), props).contains((code, props.modifier)),
        with_modifier(pairs, code, Some(opaque), props).contains((opaque, props.modifier)),
{
    let first = with_pair(pairs, (code, props.modifier));
    let second = with_pair(first, (opaque, props.modifier));
    assert(first.contains((code, props.modifier))) by {
        if !pairs.contains((code, props.modifier)) {
            assert(first[first.len() - 1] == (code, props.modifier));
        }
    }
    assert(second.contains((opaque, props.modifier))) by {
        if !first.contains((opaque, props.modifier)) {
            assert(second[second.len() - 1] == (opaque, props.modifier));
        }
    }
    assert(second.contains((code, props.modifier))) by {
        let i = choose|i: int| 0 <= i < first.len() && first[i] == (code, props.modifier);
        assert(second[i] == (code, props.modifier));
    }
}

} // verus!
