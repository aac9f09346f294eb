use musli::en::{
    encode_enum, encode_map, encode_variant, expand_insert_entry, length_test, make_encoders,
    make_field_tests, Body, BodyEncode, Data, EntryStyle, Enum, EnumTagging, Field, HintBinding,
    ImplBody, Input, InternalContent, LengthTerm, LengthTestKind, Member, Packing, SizeHintPlan,
    VariantEncode,
};

fn field(name: &str, skip: bool) -> Field {
    Field {
        member: Member::Named(name.to_string()),
        skip_encoding_if: skip,
        size_hint: false,
        packing: Packing::Tagged,
    }
}

fn body(packing: Packing, fields: Vec<Field>) -> Body {
    Body { packing, fields }
}

fn eval(terms: &[LengthTerm], present: &[bool]) -> usize {
    terms
        .iter()
        .map(|t| match t {
            LengthTerm::IfPresent(i) => usize::from(present[*i]),
            LengthTerm::Count(n) => *n,
            LengthTerm::SizeHintOf(_) => 0,
        })
        .sum()
}

#[test]
fn static_length_counts_fields() {
    let fields = vec![field("a", false), field("b", false)];
    let len = length_test(&fields);
    assert_eq!(len.kind, LengthTestKind::Static);
    assert_eq!(len.terms, vec![LengthTerm::Count(2)]);
    assert_eq!(len.build_hint(), HintBinding::Static);
}

#[test]
fn dynamic_length_tests_optional_fields() {
    let fields = vec![field("a", true), field("b", false), field("c", true)];
    let len = length_test(&fields);
    assert_eq!(len.kind, LengthTestKind::Dynamic);
    assert_eq!(
        len.terms,
        vec![LengthTerm::IfPresent(0), LengthTerm::IfPresent(2), LengthTerm::Count(1)]
    );
    assert_eq!(len.build_hint(), HintBinding::Dynamic);
    assert_eq!(make_field_tests(&body(Packing::Tagged, fields)), vec![0, 2]);
}

#[test]
fn hint_counts_written_entries() {
    // Law: the map hint equals the number of entries written, whatever is present.
    let b = body(Packing::Tagged, vec![field("a", true), field("b", false), field("c", true)]);
    let plan = encode_map(true, &b);
    let (terms, encoders) = match &plan.encode {
        BodyEncode::Entries { length, encoders, .. } => (length.terms.clone(), encoders.clone()),
        _ => panic!("a tagged struct is a map"),
    };
    for present in [[false, true, false], [true, true, true], [true, true, false]] {
        let written = encoders.iter().filter(|e| !e.conditional || present[e.field]).count();
        assert_eq!(eval(&terms, &present), written);
    }
}

#[test]
fn encoders_follow_packing() {
    // Each field is written in the style of its own packing.
    let mut packed = field("b", true);
    packed.packing = Packing::Packed;
    let b = body(Packing::Packed, vec![field("a", false), packed]);
    let encoders = make_encoders(false, &b);
    assert_eq!(encoders.len(), 2);
    assert_eq!(encoders[0].style, EntryStyle::MapEntry);
    assert_eq!(encoders[1].style, EntryStyle::PackNext);
    assert!(encoders[1].conditional);
    assert!(!encoders[0].trace);
    let mut transparent = field("c", false);
    transparent.packing = Packing::Transparent;
    let encoders = make_encoders(true, &body(Packing::Tagged, vec![transparent]));
    assert_eq!(encoders[0].style, EntryStyle::MapEntry);
    assert!(encoders[0].trace);
    let plan = encode_map(true, &b);
    assert!(matches!(plan.encode, BodyEncode::Pack { .. }));
    assert!(matches!(plan.size_hint, SizeHintPlan::Unknown));
}

#[test]
fn transparent_struct_uses_its_field() {
    let mut f = field("inner", false);
    f.size_hint = true;
    let plan = encode_map(true, &body(Packing::Transparent, vec![f]));
    assert!(matches!(plan.encode, BodyEncode::Transparent { field: 0 }));
    assert!(matches!(plan.size_hint, SizeHintPlan::OfField(0)));
}

#[test]
fn variants_by_tagging() {
    let b = body(Packing::Tagged, vec![field("x", false)]);
    let empty = encode_variant(true, EnumTagging::Empty, Packing::Tagged, &b);
    assert!(matches!(empty.encode, VariantEncode::Name));
    assert!(matches!(empty.size_hint, SizeHintPlan::Constant(1)));
    let tagged = encode_variant(true, EnumTagging::Default, Packing::Tagged, &b);
    assert!(matches!(tagged.encode, VariantEncode::Tagged(_)));
    let untagged = encode_variant(true, EnumTagging::Default, Packing::Packed, &b);
    assert!(matches!(untagged.encode, VariantEncode::Body(_)));
    let adjacent = encode_variant(true, EnumTagging::Adjacent, Packing::Tagged, &b);
    assert!(matches!(adjacent.size_hint, SizeHintPlan::Constant(2)));
}

#[test]
fn internal_tag_adds_one_entry() {
    let b = body(Packing::Tagged, vec![field("x", false), field("y", true)]);
    let plan = encode_variant(true, EnumTagging::Internal, Packing::Tagged, &b);
    match plan.encode {
        VariantEncode::Internal { length, content: InternalContent::Fields { encoders }, .. } => {
            for present in [[false, false], [false, true]] {
                let written = encoders.iter().filter(|e| !e.conditional || present[e.field]).count();
                assert_eq!(eval(&length.terms, &present), written + 1);
            }
        },
        _ => panic!("an internally tagged variant is a map"),
    }
}

#[test]
fn internal_transparent_without_hint_is_unsupported() {
    let b = body(Packing::Transparent, vec![field("x", false)]);
    let plan = encode_variant(true, EnumTagging::Internal, Packing::Tagged, &b);
    assert!(matches!(plan.encode, VariantEncode::TransparentUnsupported));
    let mut f = field("x", false);
    f.size_hint = true;
    let plan = encode_variant(true, EnumTagging::Internal, Packing::Tagged, &body(Packing::Transparent, vec![f]));
    match plan.encode {
        VariantEncode::Internal { length, content, .. } => {
            assert_eq!(length.terms, vec![LengthTerm::SizeHintOf(0), LengthTerm::Count(1)]);
            assert!(matches!(content, InternalContent::Transparent { field: 0 }));
        },
        _ => panic!("expected an internally tagged map"),
    }
}

#[test]
fn transparent_enums_are_refused() {
    let en = Enum { transparent: true, tagging: EnumTagging::Default, packing: Packing::Tagged, variants: vec![] };
    assert!(encode_enum(true, &en).is_none());
    let en = Enum { transparent: false, tagging: EnumTagging::Default, packing: Packing::Tagged, variants: vec![] };
    assert!(matches!(encode_enum(true, &en), Some(ref v) if v.is_empty()));
}

#[test]
fn expansion_of_struct_and_enum() {
    let input = Input { data: Data::Struct(body(Packing::Tagged, vec![field("a", false)])), valid: true, bitwise: true };
    let plan = expand_insert_entry(&input).unwrap();
    assert!(plan.packed);
    assert!(matches!(plan.body, ImplBody::Struct(ref s) if s.trace));
    let invalid = Input { valid: false, ..input };
    assert!(expand_insert_entry(&invalid).is_none());
    let en = Enum {
        transparent: false,
        tagging: EnumTagging::Empty,
        packing: Packing::Tagged,
        variants: vec![body(Packing::Tagged, vec![])],
    };
    let plan = expand_insert_entry(&Input { data: Data::Enum(en), valid: true, bitwise: true }).unwrap();
    assert!(!plan.packed);
    assert!(matches!(plan.body, ImplBody::Enum(ref v) if v.len() == 1));
}
