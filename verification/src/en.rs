//! What the derived `Encode` implementation of a type does.
//!
//! The derive describes the type (its fields, how they are packed, how an enum is
//! tagged); the functions here decide how the generated `encode` and `size_hint`
//! are laid out. Rendering that layout into tokens is left to the macro crate.

use vstd::prelude::*;

verus! {

/// How the fields of a body (or the variants of an enum) are laid out.
#[derive(Clone, Copy, Debug, PartialEq, Eq, Structural)]
pub enum Packing {
    /// As a map from field names to values.
    Tagged,
    /// One after another, without names.
    Packed,
    /// As the single field itself.
    Transparent,
}

/// How a field is named in the source.
#[derive(Clone, Debug)]
pub enum Member {
    /// A named field.
    Named(String),
    /// A field of a tuple struct, by index.
    Unnamed(u32),
}

/// A field that is encoded (fields marked to be skipped are not listed).
#[derive(Clone, Debug)]
pub struct Field {
    /// The name of the field in the source.
    pub member: Member,
    /// Whether the field carries a `skip_encoding_if` predicate.
    pub skip_encoding_if: bool,
    /// Whether the field has a size hint function.
    pub size_hint: bool,
    /// How the field itself is laid out.
    pub packing: Packing,
}

/// The encoded fields of a struct or of an enum variant.
#[derive(Clone, Debug)]
pub struct Body {
    /// How the fields are laid out.
    pub packing: Packing,
    /// The fields, in order.
    pub fields: Vec<Field>,
}

/// How the variant of an enum is identified.
#[derive(Clone, Copy, Debug, PartialEq, Eq, Structural)]
pub enum EnumTagging {
    /// Variants without content, encoded as their name.
    Empty,
    /// Externally tagged.
    Default,
    /// Internally tagged: the tag is an entry of the variant's map.
    Internal,
    /// Adjacently tagged: a map of a tag entry and a content entry.
    Adjacent,
}

/// An enum to derive `Encode` for.
#[derive(Clone, Debug)]
pub struct Enum {
    /// Whether the enum was declared transparent, which cannot be encoded.
    pub transparent: bool,
    /// How variants are identified.
    pub tagging: EnumTagging,
    /// How the variants are laid out.
    pub packing: Packing,
    /// The variants, in order.
    pub variants: Vec<Body>,
}

/// Whether a length hint is known without looking at the value.
#[derive(Clone, Copy, Debug, PartialEq, Eq, Structural)]
pub enum LengthTestKind {
    /// Known statically.
    Static,
    /// Depends on which optional fields are present.
    Dynamic,
}

/// A term of a length hint.
#[derive(Clone, Copy, Debug, PartialEq, Eq, Structural)]
pub enum LengthTerm {
    /// One if the field at this index is present, zero otherwise.
    IfPresent(usize),
    /// A constant.
    Count(usize),
    /// The size hint of the field at this index.
    SizeHintOf(usize),
}

/// The length hint of a map: the sum of its terms.
#[derive(Clone, Debug)]
pub struct LengthTest {
    /// Whether the sum is known statically.
    pub kind: LengthTestKind,
    /// The terms of the sum.
    pub terms: Vec<LengthTerm>,
}

/// How the hint handed to `encode_map_fn` is bound.
#[derive(Clone, Copy, Debug, PartialEq, Eq, Structural)]
pub enum HintBinding {
    /// `static HINT: usize = <terms>;`
    Static,
    /// `let hint = map_hint::<Mode>(self);`
    Dynamic,
}

/// How one field is written.
#[derive(Clone, Copy, Debug, PartialEq, Eq, Structural)]
pub enum EntryStyle {
    /// As a map entry from the field name to the value.
    MapEntry,
    /// As the next item of a pack.
    PackNext,
}

/// The encoding of one field.
#[derive(Clone, Copy, Debug, PartialEq, Eq, Structural)]
pub struct FieldEncoder {
    /// The index of the field in its body.
    pub field: usize,
    /// Whether entering and leaving the field is traced to the context.
    pub trace: bool,
    /// How the field is written.
    pub style: EntryStyle,
    /// Whether the field is only written when its `skip_encoding_if` test fails.
    pub conditional: bool,
}

/// The indices of the fields that carry a `skip_encoding_if` predicate, in order.
pub open spec fn skip_indices(fields: Seq<Field>) -> Seq<usize>
    decreases fields.len(),
{
    if fields.len() == 0 {
        Seq::empty()
    } else if fields.last().skip_encoding_if {
        skip_indices(fields.drop_last()).push((fields.len() - 1) as usize)
    } else {
        skip_indices(fields.drop_last())
    }
}

/// The number of fields that are always written.
pub open spec fn always_count(fields: Seq<Field>) -> nat
    decreases fields.len(),
{
    if fields.len() == 0 {
        0
    } else if fields.last().skip_encoding_if {
        always_count(fields.drop_last())
    } else {
        always_count(fields.drop_last()) + 1
    }
}

/// The terms of the length hint of `fields`: one conditional term per field with a
/// `skip_encoding_if` predicate, then the number of the other fields.
pub open spec fn length_terms(fields: Seq<Field>) -> Seq<LengthTerm> {
    skip_indices(fields).map_values(|i: usize| LengthTerm::IfPresent(i)).push(
        LengthTerm::Count(always_count(fields) as usize),
    )
}

/// Whether any field carries a `skip_encoding_if` predicate.
pub open spec fn has_skip(fields: Seq<Field>) -> bool {
    exists|i: int| 0 <= i < fields.len() && #[trigger] fields[i].skip_encoding_if
}

/// The encoder planned for field `i`: a map entry or the next item of a pack, as the
/// field's own packing asks.
pub open spec fn field_encoder(fields: Seq<Field>, i: int, trace: bool) -> FieldEncoder {
    FieldEncoder {
        field: i as usize,
        trace,
        style: match fields[i].packing {
            Packing::Packed => EntryStyle::PackNext,
            _ => EntryStyle::MapEntry,
        },
        conditional: fields[i].skip_encoding_if,
    }
}

proof fn lemma_skip_indices_push(fields: Seq<Field>, i: int)
    requires
        0 <= i < fields.len(),
    ensures
        skip_indices(fields.take(i + 1)) == if fields[i].skip_encoding_if {
            skip_indices(fields.take(i)).push(i as usize)
        } else {
            skip_indices(fields.take(i))
        },
        always_count(fields.take(i + 1)) == if fields[i].skip_encoding_if {
            always_count(fields.take(i))
        } else {
            always_count(fields.take(i)) + 1
        },
{
    assert(fields.take(i + 1).drop_last() =~= fields.take(i));
}

proof fn lemma_counts(fields: Seq<Field>)
    ensures
        skip_indices(fields).len() + always_count(fields) == fields.len(),
        forall|j: int|
            0 <= j < skip_indices(fields).len() ==> skip_indices(fields)[j] < fields.len(),
    decreases fields.len(),
{
    if fields.len() > 0 {
        lemma_counts(fields.drop_last());
    }
}

/// Decide the length hint of the map of `fields`.
pub fn length_test(fields: &Vec<Field>) -> (len: LengthTest)
    ensures
        len.terms@ == length_terms(fields@),
        len.kind == (if has_skip(fields@) {
            LengthTestKind::Dynamic
        } else {
            LengthTestKind::Static
        }),
{
    let mut kind = LengthTestKind::Static;
    let mut terms: Vec<LengthTerm> = Vec::new();
    let mut count: usize = 0;
    let mut i: usize = 0;
    proof {
        assert(fields@.take(0) =~= Seq::<Field>::empty());
    }
    while i < fields.len()
        invariant
            i <= fields@.len(),
            terms@ == skip_indices(fields@.take(i as int)).map_values(
                |j: usize| LengthTerm::IfPresent(j),
            ),
            count == always_count(fields@.take(i as int)),
            kind == (if exists|j: int| 0 <= j < i && #[trigger] fields@[j].skip_encoding_if {
                LengthTestKind::Dynamic
            } else {
                LengthTestKind::Static
            }),
        decreases fields.len() - i,
    {
        proof {
            lemma_skip_indices_push(fields@, i as int);
            lemma_counts(fields@.take(i as int));
        }
        if fields[i].skip_encoding_if {
            kind = LengthTestKind::Dynamic;
            terms.push(LengthTerm::IfPresent(i));
            proof {
                assert(terms@ =~= skip_indices(fields@.take(i + 1)).map_values(
                    |j: usize| LengthTerm::IfPresent(j),
                ));
            }
        } else {
            count = count + 1;
        }
        i = i + 1;
    }
    terms.push(LengthTerm::Count(count));
    proof {
        assert(fields@.take(fields@.len() as int) =~= fields@);
    }
    LengthTest { kind, terms }
}

impl LengthTest {
    /// How the hint of a map with this length is bound.
    pub fn build_hint(&self) -> (binding: HintBinding)
        ensures
            binding == (match self.kind {
                LengthTestKind::Static => HintBinding::Static,
                LengthTestKind::Dynamic => HintBinding::Dynamic,
            }),
    {
        match self.kind {
            LengthTestKind::Static => HintBinding::Static,
            LengthTestKind::Dynamic => HintBinding::Dynamic,
        }
    }
}

/// The fields whose `skip_encoding_if` test is evaluated before encoding, in order.
pub fn make_field_tests(body: &Body) -> (tests: Vec<usize>)
    ensures
        tests@ == skip_indices(body.fields@),
{
    let mut tests: Vec<usize> = Vec::new();
    let mut i: usize = 0;
    proof {
        assert(body.fields@.take(0) =~= Seq::<Field>::empty());
    }
    while i < body.fields.len()
        invariant
            i <= body.fields@.len(),
            tests@ == skip_indices(body.fields@.take(i as int)),
        decreases body.fields.len() - i,
    {
        proof {
            lemma_skip_indices_push(body.fields@, i as int);
        }
        if body.fields[i].skip_encoding_if {
            tests.push(i);
        }
        i = i + 1;
    }
    proof {
        assert(body.fields@.take(body.fields@.len() as int) =~= body.fields@);
    }
    tests
}

/// One encoder per field of `body`, in order.
pub fn make_encoders(trace: bool, body: &Body) -> (encoders: Vec<FieldEncoder>)
    ensures
        encoders@.len() == body.fields@.len(),
        forall|i: int|
            0 <= i < body.fields@.len() ==> #[trigger] encoders@[i] == field_encoder(body.fields@, i, trace),
{
    let mut encoders: Vec<FieldEncoder> = Vec::new();
    let mut i: usize = 0;
    while i < body.fields.len()
        invariant
            i <= body.fields@.len(),
            encoders@.len() == i,
            forall|j: int|
                0 <= j < i ==> #[trigger] encoders@[j] == field_encoder(body.fields@, j, trace),
        decreases body.fields.len() - i,
    {
        let style = match body.fields[i].packing {
            Packing::Packed => EntryStyle::PackNext,
            _ => EntryStyle::MapEntry,
        };
        encoders.push(
            FieldEncoder { field: i, trace, style, conditional: body.fields[i].skip_encoding_if },
        );
        i = i + 1;
    }
    encoders
}

/// How a body is written.
#[derive(Clone, Debug)]
pub enum BodyEncode {
    /// As its single field.
    Transparent { field: usize },
    /// As a map with a length hint, after evaluating the `skip_encoding_if` tests.
    Entries { binding: HintBinding, length: LengthTest, tests: Vec<usize>, encoders: Vec<FieldEncoder> },
    /// As a pack, evaluating the `skip_encoding_if` tests inside it.
    Pack { tests: Vec<usize>, encoders: Vec<FieldEncoder> },
}

/// What the generated `size_hint` returns.
#[derive(Clone, Debug)]
pub enum SizeHintPlan {
    /// `None`.
    Unknown,
    /// The size hint of the field at this index.
    OfField(usize),
    /// `Some` of the length, after evaluating the `skip_encoding_if` tests.
    Length { tests: Vec<usize>, length: LengthTest },
    /// `Some` of a constant.
    Constant(usize),
}

/// The encoding of a struct.
#[derive(Clone, Debug)]
pub struct StructPlan {
    /// Whether entering and leaving the struct is traced to the context.
    pub trace: bool,
    /// How the body is written.
    pub encode: BodyEncode,
    /// What `size_hint` returns.
    pub size_hint: SizeHintPlan,
}

/// `len` is the length hint of `fields`.
pub open spec fn is_length_of(len: LengthTest, fields: Seq<Field>) -> bool {
    &&& len.terms@ == length_terms(fields)
    &&& len.kind == if has_skip(fields) {
        LengthTestKind::Dynamic
    } else {
        LengthTestKind::Static
    }
}

/// `binding` is how the hint of a map of length `len` is bound.
pub open spec fn is_binding_of(binding: HintBinding, len: LengthTest) -> bool {
    binding == match len.kind {
        LengthTestKind::Static => HintBinding::Static,
        LengthTestKind::Dynamic => HintBinding::Dynamic,
    }
}

/// `encoders` encode the fields of `body`, one each, in order.
pub open spec fn are_encoders_of(encoders: Seq<FieldEncoder>, body: Body, trace: bool) -> bool {
    &&& encoders.len() == body.fields@.len()
    &&& forall|i: int|
        0 <= i < body.fields@.len() ==> #[trigger] encoders[i] == field_encoder(body.fields@, i, trace)
}

/// `encode` writes `body` as its packing asks.
pub open spec fn is_body_encode_of(encode: BodyEncode, body: Body, trace: bool) -> bool {
    match body.packing {
        Packing::Transparent => encode == BodyEncode::Transparent { field: 0 },
        Packing::Tagged => match encode {
            BodyEncode::Entries { binding, length, tests, encoders } => {
                &&& is_length_of(length, body.fields@)
                &&& is_binding_of(binding, length)
                &&& tests@ == skip_indices(body.fields@)
                &&& are_encoders_of(encoders@, body, trace)
            },
            _ => false,
        },
        Packing::Packed => match encode {
            BodyEncode::Pack { tests, encoders } => {
                &&& tests@ == skip_indices(body.fields@)
                &&& are_encoders_of(encoders@, body, trace)
            },
            _ => false,
        },
    }
}

/// `hint` is what the `size_hint` of `body` returns.
pub open spec fn is_size_hint_of(hint: SizeHintPlan, body: Body) -> bool {
    match body.packing {
        Packing::Transparent => hint == if body.fields@[0].size_hint {
            SizeHintPlan::OfField(0)
        } else {
            SizeHintPlan::Unknown
        },
        Packing::Tagged => match hint {
            SizeHintPlan::Length { tests, length } => tests@ == skip_indices(body.fields@)
                && is_length_of(length, body.fields@),
            _ => false,
        },
        Packing::Packed => hint == SizeHintPlan::Unknown,
    }
}

/// A body whose layout can be derived: a transparent one has its field.
pub open spec fn body_wf(body: Body) -> bool {
    body.packing == Packing::Transparent ==> body.fields@.len() >= 1
}

fn encode_body(trace: bool, body: &Body) -> (r: (BodyEncode, SizeHintPlan))
    requires
        body_wf(*body),
    ensures
        is_body_encode_of(r.0, *body, trace),
        is_size_hint_of(r.1, *body),
{
    match body.packing {
        Packing::Transparent => {
            let size_hint = if body.fields[0].size_hint {
                SizeHintPlan::OfField(0)
            } else {
                SizeHintPlan::Unknown
            };
            (BodyEncode::Transparent { field: 0 }, size_hint)
        },
        Packing::Tagged => {
            let length = length_test(&body.fields);
            let binding = length.build_hint();
            let encode = BodyEncode::Entries {
                binding,
                length,
                tests: make_field_tests(body),
                encoders: make_encoders(trace, body),
            };
            let size_hint = SizeHintPlan::Length {
                tests: make_field_tests(body),
                length: length_test(&body.fields),
            };
            (encode, size_hint)
        },
        Packing::Packed => {
            let encode = BodyEncode::Pack {
                tests: make_field_tests(body),
                encoders: make_encoders(trace, body),
            };
            (encode, SizeHintPlan::Unknown)
        },
    }
}

/// Encode a struct.
pub fn encode_map(trace: bool, body: &Body) -> (plan: StructPlan)
    requires
        body_wf(*body),
    ensures
        plan.trace == trace,
        is_body_encode_of(plan.encode, *body, trace),
        is_size_hint_of(plan.size_hint, *body),
{
    let (encode, size_hint) = encode_body(trace, body);
    StructPlan { trace, encode, size_hint }
}

/// The content of an internally tagged variant, written after its tag entry.
#[derive(Clone, Debug)]
pub enum InternalContent {
    /// The single field, encoded into the same map.
    Transparent { field: usize },
    /// The fields, one entry each.
    Fields { encoders: Vec<FieldEncoder> },
}

/// How a variant is written.
#[derive(Clone, Debug)]
pub enum VariantEncode {
    /// As its name.
    Name,
    /// As its body.
    Body(BodyEncode),
    /// As a variant: its name as the tag, then its body as the data.
    Tagged(BodyEncode),
    /// As a map of the tag entry and then the content.
    Internal { binding: HintBinding, length: LengthTest, tests: Vec<usize>, content: InternalContent },
    /// An internally tagged transparent variant whose field has no size hint: the
    /// generated code reports that it cannot be encoded.
    TransparentUnsupported,
    /// As a map of two entries, the tag and the content, the content a map of the fields.
    Adjacent { binding: HintBinding, length: LengthTest, tests: Vec<usize>, encoders: Vec<FieldEncoder> },
}

/// The encoding of a variant.
#[derive(Clone, Debug)]
pub struct VariantPlan {
    /// Whether entering and leaving the variant is traced to the context.
    pub trace: bool,
    /// How the variant is written.
    pub encode: VariantEncode,
    /// What `size_hint` returns for it.
    pub size_hint: SizeHintPlan,
}

/// The length terms of an internally tagged variant: those of its fields (or the size
/// hint of its transparent field), and one for the tag.
pub open spec fn internal_terms(body: Body) -> Seq<LengthTerm> {
    if body.packing == Packing::Transparent {
        seq![LengthTerm::SizeHintOf(0), LengthTerm::Count(1)]
    } else {
        length_terms(body.fields@).push(LengthTerm::Count(1))
    }
}

/// `plan` encodes the variant `body` of an enum tagged and packed as given.
pub open spec fn is_variant_plan_of(
    plan: VariantPlan,
    tagging: EnumTagging,
    packing: Packing,
    body: Body,
    trace: bool,
) -> bool {
    &&& plan.trace == trace
    &&& match tagging {
        EnumTagging::Empty => plan.encode == VariantEncode::Name && plan.size_hint
            == SizeHintPlan::Constant(1),
        EnumTagging::Default => {
            &&& is_size_hint_of(plan.size_hint, body)
            &&& match plan.encode {
                VariantEncode::Body(encode) => packing != Packing::Tagged && is_body_encode_of(
                    encode,
                    body,
                    trace,
                ),
                VariantEncode::Tagged(encode) => packing == Packing::Tagged && is_body_encode_of(
                    encode,
                    body,
                    trace,
                ),
                _ => false,
            }
        },
        EnumTagging::Internal => if body.packing == Packing::Transparent
            && !body.fields@[0].size_hint {
            plan.encode == VariantEncode::TransparentUnsupported && plan.size_hint
                == SizeHintPlan::Unknown
        } else {
            match plan.encode {
                VariantEncode::Internal { binding, length, tests, content } => {
                    &&& length.terms@ == internal_terms(body)
                    &&& length.kind == if body.packing == Packing::Transparent || has_skip(
                        body.fields@,
                    ) {
                        LengthTestKind::Dynamic
                    } else {
                        LengthTestKind::Static
                    }
                    &&& is_binding_of(binding, length)
                    &&& tests@ == skip_indices(body.fields@)
                    &&& match content {
                        InternalContent::Transparent { field } => body.packing
                            == Packing::Transparent && field == 0,
                        InternalContent::Fields { encoders } => body.packing
                            != Packing::Transparent && are_encoders_of(encoders@, body, trace),
                    }
                    &&& match plan.size_hint {
                        SizeHintPlan::Length { tests, length: hint_length } => tests@
                            == skip_indices(body.fields@) && hint_length.terms@
                            == length.terms@,
                        _ => false,
                    }
                },
                _ => false,
            }
        },
        EnumTagging::Adjacent => {
            &&& plan.size_hint == SizeHintPlan::Constant(2)
            &&& match plan.encode {
                VariantEncode::Adjacent { binding, length, tests, encoders } => {
                    &&& is_length_of(length, body.fields@)
                    &&& is_binding_of(binding, length)
                    &&& tests@ == skip_indices(body.fields@)
                    &&& are_encoders_of(encoders@, body, trace)
                },
                _ => false,
            }
        },
    }
}

/// The length hint of an internally tagged variant.
fn internal_length(body: &Body) -> (len: LengthTest)
    requires
        body_wf(*body),
    ensures
        len.terms@ == internal_terms(*body),
        len.kind == if body.packing == Packing::Transparent || has_skip(body.fields@) {
            LengthTestKind::Dynamic
        } else {
            LengthTestKind::Static
        },
{
    let mut len = if let Packing::Transparent = body.packing {
        let mut terms: Vec<LengthTerm> = Vec::new();
        terms.push(LengthTerm::SizeHintOf(0));
        LengthTest { kind: LengthTestKind::Dynamic, terms }
    } else {
        length_test(&body.fields)
    };
    len.terms.push(LengthTerm::Count(1));
    proof {
        if body.packing == Packing::Transparent {
            assert(len.terms@ =~= seq![LengthTerm::SizeHintOf(0), LengthTerm::Count(1)]);
        }
    }
    len
}

/// Setup encoding for a single variant.
pub fn encode_variant(trace: bool, tagging: EnumTagging, packing: Packing, body: &Body) -> (plan:
    VariantPlan)
    requires
        body_wf(*body),
    ensures
        is_variant_plan_of(plan, tagging, packing, *body, trace),
{
    let (encode, size_hint) = match tagging {
        EnumTagging::Empty => (VariantEncode::Name, SizeHintPlan::Constant(1)),
        EnumTagging::Default => {
            let (encode, size_hint) = encode_body(trace, body);
            if let Packing::Tagged = packing {
                (VariantEncode::Tagged(encode), size_hint)
            } else {
                (VariantEncode::Body(encode), size_hint)
            }
        },
        EnumTagging::Internal => {
            if matches!(body.packing, Packing::Transparent) && !body.fields[0].size_hint {
                (VariantEncode::TransparentUnsupported, SizeHintPlan::Unknown)
            } else {
                let length = internal_length(body);
                let binding = length.build_hint();
                let content = if let Packing::Transparent = body.packing {
                    InternalContent::Transparent { field: 0 }
                } else {
                    InternalContent::Fields { encoders: make_encoders(trace, body) }
                };
                let encode = VariantEncode::Internal {
                    binding,
                    length,
                    tests: make_field_tests(body),
                    content,
                };
                let size_hint = SizeHintPlan::Length {
                    tests: make_field_tests(body),
                    length: internal_length(body),
                };
                (encode, size_hint)
            }
        },
        EnumTagging::Adjacent => {
            let length = length_test(&body.fields);
            let binding = length.build_hint();
            let encode = VariantEncode::Adjacent {
                binding,
                length,
                tests: make_field_tests(body),
                encoders: make_encoders(trace, body),
            };
            (encode, SizeHintPlan::Constant(2))
        },
    };
    VariantPlan { trace, encode, size_hint }
}

/// Every variant of `en` can be derived.
pub open spec fn enum_wf(en: Enum) -> bool {
    forall|i: int| 0 <= i < en.variants@.len() ==> body_wf(#[trigger] en.variants@[i])
}

/// Encode an enum: one plan per variant, or `None` for an enum declared transparent,
/// which cannot be encoded. No variants gives an empty match.
pub fn encode_enum(trace: bool, en: &Enum) -> (plans: Option<Vec<VariantPlan>>)
    requires
        enum_wf(*en),
    ensures
        en.transparent <==> plans is None,
        plans matches Some(plans) ==> plans@.len() == en.variants@.len() && forall|i: int|
            0 <= i < en.variants@.len() ==> is_variant_plan_of(
                #[trigger] plans@[i],
                en.tagging,
                en.packing,
                en.variants@[i],
                trace,
            ),
{
    if en.transparent {
        return None;
    }
    let mut plans: Vec<VariantPlan> = Vec::new();
    let mut i: usize = 0;
    while i < en.variants.len()
        invariant
            enum_wf(*en),
            i <= en.variants@.len(),
            plans@.len() == i,
            forall|j: int|
                0 <= j < i ==> is_variant_plan_of(
                    #[trigger] plans@[j],
                    en.tagging,
                    en.packing,
                    en.variants@[j],
                    trace,
                ),
        decreases en.variants.len() - i,
    {
        assert(body_wf(en.variants@[i as int]));
        plans.push(encode_variant(trace, en.tagging, en.packing, &en.variants[i]));
        i = i + 1;
    }
    Some(plans)
}

/// The value of a length term, given which fields are present and the size hints of
/// the fields.
pub open spec fn term_value(term: LengthTerm, present: Seq<bool>, hints: Seq<nat>) -> nat {
    match term {
        LengthTerm::IfPresent(i) => if present[i as int] {
            1
        } else {
            0
        },
        LengthTerm::Count(n) => n as nat,
        LengthTerm::SizeHintOf(i) => hints[i as int],
    }
}

/// The value of a length hint: the sum of its terms.
pub open spec fn length_value(terms: Seq<LengthTerm>, present: Seq<bool>, hints: Seq<nat>) -> nat
    decreases terms.len(),
{
    if terms.len() == 0 {
        0
    } else {
        length_value(terms.drop_last(), present, hints) + term_value(terms.last(), present, hints)
    }
}

/// The number of entries the encoders write, given which fields are present: a
/// conditional encoder writes only when its field is present.
pub open spec fn entries_written(encoders: Seq<FieldEncoder>, present: Seq<bool>) -> nat
    decreases encoders.len(),
{
    if encoders.len() == 0 {
        0
    } else {
        entries_written(encoders.drop_last(), present) + if !encoders.last().conditional
            || present[encoders.last().field as int] {
            1nat
        } else {
            0nat
        }
    }
}

/// The number of fields with a `skip_encoding_if` predicate that are present.
pub open spec fn present_skipped(fields: Seq<Field>, present: Seq<bool>) -> nat
    decreases fields.len(),
{
    if fields.len() == 0 {
        0
    } else {
        present_skipped(fields.drop_last(), present) + if fields.last().skip_encoding_if
            && present[fields.len() - 1] {
            1nat
        } else {
            0nat
        }
    }
}

proof fn lemma_length_value_push(terms: Seq<LengthTerm>, t: LengthTerm, present: Seq<bool>, hints: Seq<nat>)
    ensures
        length_value(terms.push(t), present, hints) == length_value(terms, present, hints)
            + term_value(t, present, hints),
{
    assert(terms.push(t).drop_last() =~= terms);
}

proof fn lemma_skipped_terms_value(fields: Seq<Field>, present: Seq<bool>, hints: Seq<nat>)
    requires
        fields.len() <= usize::MAX,
    ensures
        length_value(
            skip_indices(fields).map_values(|i: usize| LengthTerm::IfPresent(i)),
            present,
            hints,
        ) == present_skipped(fields, present),
    decreases fields.len(),
{
    if fields.len() > 0 {
        let prev = fields.drop_last();
        lemma_skipped_terms_value(prev, present, hints);
        lemma_counts(prev);
        let f = |i: usize| LengthTerm::IfPresent(i);
        if fields.last().skip_encoding_if {
            let k = (fields.len() - 1) as usize;
        assert(k as int == fields.len() - 1);
            assert(skip_indices(prev).push(k).map_values(f) =~= skip_indices(prev).map_values(
                f,
            ).push(LengthTerm::IfPresent(k)));
            lemma_length_value_push(
                skip_indices(prev).map_values(f),
                LengthTerm::IfPresent(k),
                present,
                hints,
            );
        }
    }
}

proof fn lemma_entries_written(body: Body, encoders: Seq<FieldEncoder>, trace: bool, present: Seq<bool>, n: int)
    requires
        are_encoders_of(encoders, body, trace),
        0 <= n <= encoders.len(),
        encoders.len() <= usize::MAX,
    ensures
        entries_written(encoders.take(n), present) == present_skipped(body.fields@.take(n), present)
            + always_count(body.fields@.take(n)),
    decreases n,
{
    if n > 0 {
        lemma_entries_written(body, encoders, trace, present, n - 1);
        assert(encoders.take(n).drop_last() =~= encoders.take(n - 1));
        assert(body.fields@.take(n).drop_last() =~= body.fields@.take(n - 1));
        assert(encoders[n - 1] == field_encoder(body.fields@, n - 1, trace));
    }
}

/// The length hint of a map of fields counts the entries its encoders write: for every
/// choice of which optional fields are present, the hint equals the number of entries.
pub proof fn lemma_hint_counts_entries(
    body: Body,
    length: LengthTest,
    encoders: Seq<FieldEncoder>,
    trace: bool,
    present: Seq<bool>,
    hints: Seq<nat>,
)
    requires
        is_length_of(length, body.fields@),
        are_encoders_of(encoders, body, trace),
    ensures
        length_value(length.terms@, present, hints) == entries_written(encoders, present),
{
    let fields = body.fields@;
    assert(body.fields.len() == fields.len());
    lemma_skipped_terms_value(fields, present, hints);
    lemma_length_value_push(
        skip_indices(fields).map_values(|i: usize| LengthTerm::IfPresent(i)),
        LengthTerm::Count(always_count(fields) as usize),
        present,
        hints,
    );
    lemma_counts(fields);
    lemma_entries_written(body, encoders, trace, present, encoders.len() as int);
    assert(encoders.take(encoders.len() as int) =~= encoders);
    assert(fields.take(fields.len() as int) =~= fields);
}

/// The hint of a struct packed as a map counts the entries it writes.
pub proof fn lemma_struct_hint_counts_entries(
    body: Body,
    plan: StructPlan,
    trace: bool,
    present: Seq<bool>,
    hints: Seq<nat>,
)
    requires
        body.packing == Packing::Tagged,
        plan.trace == trace,
        is_body_encode_of(plan.encode, body, trace),
        is_size_hint_of(plan.size_hint, body),
    ensures
        plan.encode matches BodyEncode::Entries { length, encoders, .. } && length_value(
            length.terms@,
            present,
            hints,
        ) == entries_written(encoders@, present),
        plan.size_hint matches SizeHintPlan::Length { length, .. } && plan.encode matches BodyEncode::Entries { encoders, .. }
            && length_value(length.terms@, present, hints) == entries_written(encoders@, present),
{
    if let BodyEncode::Entries { length, encoders, .. } = plan.encode {
        lemma_hint_counts_entries(body, length, encoders@, trace, present, hints);
        if let SizeHintPlan::Length { length: hint, .. } = plan.size_hint {
            lemma_hint_counts_entries(body, hint, encoders@, trace, present, hints);
        }
    }
}

/// The hint of an internally tagged variant counts the entries it writes and one more,
/// for the tag.
pub proof fn lemma_internal_hint_counts_tag(
    body: Body,
    plan: VariantPlan,
    packing: Packing,
    trace: bool,
    present: Seq<bool>,
    hints: Seq<nat>,
)
    requires
        body.packing != Packing::Transparent,
        is_variant_plan_of(plan, EnumTagging::Internal, packing, body, trace),
    ensures
        plan.encode matches VariantEncode::Internal {
            length,
            content: InternalContent::Fields { encoders },
            ..
        } && length_value(length.terms@, present, hints) == entries_written(encoders@, present)
            + 1,
{
    if let VariantEncode::Internal { length, content, .. } = plan.encode {
        if let InternalContent::Fields { encoders } = content {
            let fields = body.fields@;
            assert(body.fields.len() == fields.len());
            lemma_skipped_terms_value(fields, present, hints);
            lemma_length_value_push(
                skip_indices(fields).map_values(|i: usize| LengthTerm::IfPresent(i)),
                LengthTerm::Count(always_count(fields) as usize),
                present,
                hints,
            );
            lemma_length_value_push(length_terms(fields), LengthTerm::Count(1), present, hints);
            lemma_counts(fields);
            lemma_entries_written(body, encoders@, trace, present, encoders@.len() as int);
            assert(encoders@.take(encoders@.len() as int) =~= encoders@);
            assert(fields.take(fields.len() as int) =~= fields);
        }
    }
}

/// The hint of an adjacently tagged variant's content map counts the entries its encoders
/// write: for every choice of which optional fields are present, the number of entries the
/// content map announces equals the number it writes (the tag is outside that map).
pub proof fn lemma_adjacent_hint_counts_entries(
    body: Body,
    plan: VariantPlan,
    packing: Packing,
    trace: bool,
    present: Seq<bool>,
    hints: Seq<nat>,
)
    requires
        is_variant_plan_of(plan, EnumTagging::Adjacent, packing, body, trace),
    ensures
        plan.encode matches VariantEncode::Adjacent { length, encoders, .. } && length_value(
            length.terms@,
            present,
            hints,
        ) == entries_written(encoders@, present),
{
    if let VariantEncode::Adjacent { length, encoders, .. } = plan.encode {
        lemma_hint_counts_entries(body, length, encoders@, trace, present, hints);
    }
}

/// The encoders planned for a body write each of its fields exactly once, in order:
/// encoder `i` writes field `i`, only when that field is present if it carries a
/// `skip_encoding_if` predicate, and always otherwise; a pack item where the field is
/// packed and a map entry where it is not.
pub proof fn lemma_encoders_write_each_field(body: Body, encoders: Seq<FieldEncoder>, trace: bool)
    requires
        are_encoders_of(encoders, body, trace),
    ensures
        encoders.len() == body.fields@.len(),
        forall|i: int|
            0 <= i < encoders.len() ==> {
                &&& (#[trigger] encoders[i]).field == i
                &&& encoders[i].conditional == body.fields@[i].skip_encoding_if
                &&& encoders[i].trace == trace
                &&& (encoders[i].style == EntryStyle::PackNext <==> body.fields@[i].packing
                    == Packing::Packed)
            },
        forall|i: int, j: int|
            0 <= i < j < encoders.len() ==> encoders[i].field < encoders[j].field,
{
    assert(body.fields@.len() == body.fields.len());
    assert forall|i: int| 0 <= i < encoders.len() implies (#[trigger] encoders[i]).field == i by {
        assert(encoders[i] == field_encoder(body.fields@, i, trace));
    }
}

/// What a derive of `Encode` is applied to.
#[derive(Clone, Debug)]
pub enum Data {
    /// A struct.
    Struct(Body),
    /// An enum.
    Enum(Enum),
}

/// The input of the derive.
#[derive(Clone, Debug)]
pub struct Input {
    /// The type.
    pub data: Data,
    /// Whether the attributes of the type passed validation for encoding.
    pub valid: bool,
    /// Whether the struct is bitwise encodable.
    pub bitwise: bool,
}

/// The body of the generated `encode` and `size_hint`.
#[derive(Clone, Debug)]
pub enum ImplBody {
    /// Those of a struct.
    Struct(StructPlan),
    /// A match over the variants of an enum.
    Enum(Vec<VariantPlan>),
}

/// The generated `Encode` implementation.
#[derive(Clone, Debug)]
pub struct ImplPlan {
    /// The value of `IS_BITWISE_ENCODE`.
    pub packed: bool,
    /// The body of `encode` and `size_hint`.
    pub body: ImplBody,
}

/// The input can be derived.
pub open spec fn input_wf(input: Input) -> bool {
    match input.data {
        Data::Struct(body) => body_wf(body),
        Data::Enum(en) => enum_wf(en),
    }
}

/// `plan` implements `Encode` for the struct `body`, tracing, bitwise as given.
pub open spec fn is_struct_impl_of(plan: ImplPlan, body: Body, bitwise: bool) -> bool {
    &&& plan.packed == bitwise
    &&& match plan.body {
        ImplBody::Struct(s) => s.trace && is_body_encode_of(s.encode, body, true)
            && is_size_hint_of(s.size_hint, body),
        _ => false,
    }
}

/// `plan` implements `Encode` for the enum `en`, tracing, never bitwise.
pub open spec fn is_enum_impl_of(plan: ImplPlan, en: Enum) -> bool {
    &&& !plan.packed
    &&& match plan.body {
        ImplBody::Enum(plans) => plans@.len() == en.variants@.len() && forall|i: int|
            0 <= i < en.variants@.len() ==> is_variant_plan_of(
                #[trigger] plans@[i],
                en.tagging,
                en.packing,
                en.variants@[i],
                true,
            ),
        _ => false,
    }
}

/// Plan the `Encode` implementation of a type; `None` where the derive reports an error
/// instead. Entering and leaving structs, fields and variants is traced.
pub fn expand_insert_entry(input: &Input) -> (plan: Option<ImplPlan>)
    requires
        input_wf(*input),
    ensures
        !input.valid ==> plan is None,
        input.valid ==> match input.data {
            Data::Struct(body) => plan matches Some(p) && is_struct_impl_of(p, body, input.bitwise),
            Data::Enum(en) => if en.transparent {
                plan is None
            } else {
                plan matches Some(p) && is_enum_impl_of(p, en)
            },
        },
{
    if !input.valid {
        return None;
    }
    match &input.data {
        Data::Struct(body) => {
            let plan = encode_map(true, body);
            Some(ImplPlan { packed: input.bitwise, body: ImplBody::Struct(plan) })
        },
        Data::Enum(en) => match encode_enum(true, en) {
            Some(plans) => Some(ImplPlan { packed: false, body: ImplBody::Enum(plans) }),
            None => None,
        },
    }
}

} // verus!
