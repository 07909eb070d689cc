//! Stable 128-bit type identifiers: the traits that attach one to a type,
//! the number an identifier stands for, and the composition of identifiers
//! for parameterized types.

use vstd::prelude::*;

verus! {

/// Provides a statically defined UUID for a Rust type.
///
/// The identifier must be the same in every process and on every run: pick
/// it once (a random version 4 UUID will do) and write its sixteen bytes
/// down.
pub trait TypeUuid {
    const UUID: uuid::Bytes;
}

/// Allows the `TypeUuid` constant to be retrieved via a trait object. It is
/// implemented for every type that implements `TypeUuid`; do not implement
/// it by hand, since the value it returns has to be deterministic.
pub trait TypeUuidDynamic {
    fn uuid(&self) -> uuid::Bytes;
}

impl<T: TypeUuid> TypeUuidDynamic for T {
    fn uuid(&self) -> (id: uuid::Bytes)
        ensures
            id == Self::UUID,
    {
        Self::UUID
    }
}

impl TypeUuid for () {
    const UUID: uuid::Bytes = [
        0x98, 0xF1, 0x8B, 0x7E, 0x4E, 0xB9, 0x42, 0x9C, 0xAF, 0xBF, 0xEE, 0x2F, 0x9F, 0x4C, 0xBC,
        0x7,
    ];
}

/// The number that a run of bytes stands for when the first byte is the
/// most significant one.
pub open spec fn be_value(bytes: Seq<u8>) -> nat
    decreases bytes.len(),
{
    if bytes.len() == 0 {
        0
    } else {
        be_value(bytes.drop_last()) * 256 + bytes.last() as nat
    }
}

/// The 128-bit number of an identifier given by its sixteen bytes.
pub open spec fn type_id(bytes: uuid::Bytes) -> nat {
    be_value(bytes@)
}

/// The number of values that a run of `len` bytes can stand for.
pub open spec fn be_bound(len: nat) -> nat
    decreases len,
{
    if len == 0 {
        1
    } else {
        256 * be_bound((len - 1) as nat)
    }
}

/// A run of bytes stands for a number below the bound of its length.
pub proof fn lemma_be_value_is_bounded(bytes: Seq<u8>)
    ensures
        be_value(bytes) < be_bound(bytes.len()),
    decreases bytes.len(),
{
    if bytes.len() > 0 {
        lemma_be_value_is_bounded(bytes.drop_last());
    }
}

/// The number of an identifier fits in 128 bits.
pub proof fn lemma_type_id_fits(bytes: uuid::Bytes)
    ensures
        type_id(bytes) <= u128::MAX,
{
    lemma_be_value_is_bounded(bytes@);
    assert(be_bound(16) == 0x1_0000_0000_0000_0000_0000_0000_0000_0000) by {
        reveal_with_fuel(be_bound, 17);
    }
}

/// `uuid::Uuid::from_bytes`, read back with `uuid::Uuid::as_u128`: the
/// sixteen bytes are packed into one number, first byte most significant.
/// Not proved here: the contract restates what the `uuid` crate documents.
#[verifier::external_body]
pub(crate) fn uuid_from_bytes(bytes: uuid::Bytes) -> (id: u128)
    ensures
        id == type_id(bytes),
{
    uuid::Uuid::from_bytes(bytes).as_u128()
}

/// Combines two identifiers into one by bitwise exclusive or.
///
/// The combination is defined for every pair of identifiers and always
/// gives the same result; it makes no attempt to avoid collisions.
pub fn compose_uuid(left: u128, right: u128) -> (id: u128)
    ensures
        id == left ^ right,
{
    left ^ right
}

/// Identifier of the transform attribute.
pub const TRANSFORM_UUID: u128 = 0xf3d49cc2c77e4dc99e1fc01e9279c999;

/// Identifier of the camera attribute.
pub const CAMERA_PREFAB_UUID: u128 = 0x15ed1b66537e4e75b52dcd4659ba53bf;

/// Identifier of the light attribute.
pub const LIGHT_PREFAB_UUID: u128 = 0x41c40489269b4ef5af7f675a29473f86;

/// Identifier of the family of graphics attributes, before the identifiers
/// of its three type arguments are mixed in.
pub const GRAPHICS_PREFAB_UUID: u128 = 0xd29ba396a10448fea14085b9a489e26d;

/// The identifier of a graphics attribute whose vertex, mesh format and
/// texture format types have the identifiers `vertex`, `mesh` and
/// `texture`.
pub open spec fn graphics_prefab_id(vertex: u128, mesh: u128, texture: u128) -> u128 {
    GRAPHICS_PREFAB_UUID ^ (vertex ^ (mesh ^ texture))
}

/// Composes the identifier of a graphics attribute from the family's
/// identifier and those of its three type arguments.
pub fn graphics_prefab_uuid(vertex: u128, mesh: u128, texture: u128) -> (id: u128)
    ensures
        id == graphics_prefab_id(vertex, mesh, texture),
{
    compose_uuid(GRAPHICS_PREFAB_UUID, compose_uuid(vertex, compose_uuid(mesh, texture)))
}

/// Composition does not depend on the order of its two arguments.
pub proof fn lemma_compose_commutes(left: u128, right: u128)
    ensures
        left ^ right == right ^ left,
{
    assert(left ^ right == right ^ left) by (bit_vector);
}

/// Composition may be regrouped freely.
pub proof fn lemma_compose_associates(a: u128, b: u128, c: u128)
    ensures
        (a ^ b) ^ c == a ^ (b ^ c),
{
    assert((a ^ b) ^ c == a ^ (b ^ c)) by (bit_vector);
}

/// Composing twice with the same identifier gives the other one back, so
/// two different arguments never compose to the same identifier under one
/// family.
pub proof fn lemma_compose_cancels(left: u128, right: u128)
    ensures
        (left ^ right) ^ right == left,
{
    assert((left ^ right) ^ right == left) by (bit_vector);
}

/// The known weakness of the composition: a family applied to two equal
/// arguments collides with the family's own identifier.
pub proof fn lemma_compose_equal_arguments_collide(family: u128, argument: u128)
    ensures
        family ^ (argument ^ argument) == family,
{
    assert(family ^ (argument ^ argument) == family) by (bit_vector);
}

} // verus!
