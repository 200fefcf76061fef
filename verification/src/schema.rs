//! The writer's type schema: a recursive tagged value, immutable for the
//! writer's lifetime.  Columns are numbered by a depth-first preorder walk
//! of the schema tree, the root being column 0.

use vstd::prelude::*;

verus! {

broadcast use vstd::std_specs::vec::group_vec_axioms;

/// A named field of a struct schema.
#[verifier::ext_equal]
pub struct Field(pub String, pub Schema);

/// A column type.  `Decimal(precision, scale)` with precision at most 18
/// takes the 64-bit unscaled path.  `Date` is days since the Unix epoch,
/// stored as a signed long.  `Timestamp` is seconds and nanoseconds.
#[verifier::ext_equal]
pub enum Schema {
    Boolean,
    Byte,
    Short,
    Int,
    Long,
    Float,
    Double,
    String,
    Binary,
    Date,
    Timestamp,
    Decimal(u32, u32),
    List(Box<Schema>),
    Struct(Vec<Field>),
}

/// The number of columns of the schema subtree: one for the node itself
/// plus its descendants, matching the preorder numbering.
pub open spec fn schema_columns(s: Schema) -> nat
    decreases s,
{
    match s {
        Schema::List(c) => 1 + schema_columns(*c),
        Schema::Struct(fs) => 1 + fields_columns(fs@),
        _ => 1,
    }
}

/// The number of columns contributed by a sequence of struct fields.
pub open spec fn fields_columns(fs: Seq<Field>) -> nat
    decreases fs,
{
    if fs.len() == 0 {
        0
    } else {
        schema_columns(fs[0].1) + fields_columns(fs.drop_first())
    }
}

/// Column counts split off the last field as well as the first.
pub proof fn lemma_fields_columns_push(fs: Seq<Field>, f: Field)
    ensures
        fields_columns(fs.push(f)) == fields_columns(fs) + schema_columns(f.1),
    decreases fs.len(),
{
    if fs.len() == 0 {
        assert(fs.push(f)[0] == f);
        assert(fs.push(f).drop_first() =~= Seq::<Field>::empty());
        assert(fields_columns(fs.push(f)) == schema_columns(f.1) + fields_columns(
            Seq::<Field>::empty(),
        ));
    } else {
        assert(fs.push(f)[0] == fs[0]);
        assert(fs.push(f).drop_first() =~= fs.drop_first().push(f));
        lemma_fields_columns_push(fs.drop_first(), f);
        assert(fields_columns(fs.push(f)) == schema_columns(fs[0].1) + fields_columns(
            fs.drop_first().push(f),
        ));
    }
}

/// Each field's subtree is no larger than the whole field sequence's.
pub proof fn lemma_fields_columns_member(fs: Seq<Field>, i: int)
    requires
        0 <= i < fs.len(),
    ensures
        schema_columns(fs[i].1) <= fields_columns(fs),
    decreases fs.len(),
{
    if i > 0 {
        lemma_fields_columns_member(fs.drop_first(), i - 1);
        assert(fs.drop_first()[i - 1] == fs[i]);
    }
}

} // verus!
