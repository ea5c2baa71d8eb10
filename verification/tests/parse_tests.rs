use jvm_descriptors::Descriptor;
use jvm_descriptors::FieldType;
use jvm_descriptors::MethodType;
use jvm_descriptors::SingleType;

#[test]
fn fields() {
    assert_eq!(
        FieldType::parse("[[[Lfoo bar net;"),
        Some(FieldType {
            base: SingleType::Reference(String::from("foo bar net")),
            array_cnt: 3
        })
    );
}

#[test]
fn methods() {
    assert_eq!(
        MethodType::parse("([B[[LFoo;I)[LNetwork;"),
        Some(MethodType {
            params: vec![
                FieldType {
                    base: SingleType::Byte,
                    array_cnt: 1
                },
                FieldType {
                    base: SingleType::Reference(String::from("Foo")),
                    array_cnt: 2
                },
                FieldType {
                    base: SingleType::Int,
                    array_cnt: 0
                }
            ],
            ret: FieldType {
                base: SingleType::Reference(String::from("Network")),
                array_cnt: 1
            }
        })
    )
}

#[test]
fn primitive_codes() {
    let cases = vec![
        ("B", SingleType::Byte),
        ("C", SingleType::Char),
        ("D", SingleType::Double),
        ("F", SingleType::Float),
        ("I", SingleType::Int),
        ("J", SingleType::Long),
        ("S", SingleType::Short),
        ("Z", SingleType::Boolean),
    ];
    for (text, base) in cases {
        assert_eq!(
            FieldType::parse(text),
            Some(FieldType {
                base: base.clone(),
                array_cnt: 0
            })
        );
        assert_eq!(SingleType::parse(text), Some(base));
    }
}

#[test]
fn empty_input() {
    assert_eq!(SingleType::parse(""), None);
    assert_eq!(FieldType::parse(""), None);
    assert_eq!(MethodType::parse(""), None);
    assert_eq!(Descriptor::parse(""), None);
}

#[test]
fn trailing_garbage() {
    assert_eq!(FieldType::parse("I extra"), None);
    assert_eq!(SingleType::parse("II"), None);
    assert_eq!(MethodType::parse("(I)I "), None);
    assert_eq!(Descriptor::parse("LFoo;x"), None);
}

#[test]
fn unterminated_reference() {
    assert_eq!(FieldType::parse("LFoo"), None);
    assert_eq!(SingleType::parse("LFoo"), None);
    assert_eq!(MethodType::parse("(I)LFoo"), None);
}

#[test]
fn empty_class_name() {
    assert_eq!(
        FieldType::parse("L;"),
        Some(FieldType {
            base: SingleType::Reference(String::new()),
            array_cnt: 0
        })
    );
}

#[test]
fn reference_single_type() {
    assert_eq!(
        SingleType::parse("LFoo;"),
        Some(SingleType::Reference(String::from("Foo")))
    );
}

#[test]
fn method_without_params() {
    assert_eq!(
        MethodType::parse("()I"),
        Some(MethodType {
            params: vec![],
            ret: FieldType {
                base: SingleType::Int,
                array_cnt: 0
            }
        })
    );
}

#[test]
fn method_failures() {
    assert_eq!(MethodType::parse("(I"), None);
    assert_eq!(MethodType::parse("I)I"), None);
    assert_eq!(MethodType::parse("(I)"), None);
    assert_eq!(MethodType::parse("(X)I"), None);
    assert_eq!(MethodType::parse("()"), None);
}

#[test]
fn descriptor_dispatch() {
    assert_eq!(
        Descriptor::parse("I"),
        Some(Descriptor::Field(FieldType {
            base: SingleType::Int,
            array_cnt: 0
        }))
    );
    assert_eq!(
        Descriptor::parse("(I)LFoo;"),
        Some(Descriptor::Method(MethodType {
            params: vec![FieldType {
                base: SingleType::Int,
                array_cnt: 0
            }],
            ret: FieldType {
                base: SingleType::Reference(String::from("Foo")),
                array_cnt: 0
            }
        }))
    );
    assert_eq!(Descriptor::parse("(I"), None);
}

#[test]
fn array_depth_boundary() {
    let mut deep = "[".repeat(255);
    deep.push('I');
    assert_eq!(
        FieldType::parse(&deep),
        Some(FieldType {
            base: SingleType::Int,
            array_cnt: 255
        })
    );
    let mut too_deep = "[".repeat(256);
    too_deep.push('I');
    assert_eq!(FieldType::parse(&too_deep), None);
    assert_eq!(Descriptor::parse(&too_deep), None);
}

#[test]
fn from_conversions() {
    assert_eq!(
        FieldType::from(SingleType::Long),
        FieldType {
            base: SingleType::Long,
            array_cnt: 0
        }
    );
    let f = FieldType {
        base: SingleType::Boolean,
        array_cnt: 2,
    };
    assert_eq!(Descriptor::from(f.clone()), Descriptor::Field(f));
    let m = MethodType {
        params: vec![],
        ret: FieldType {
            base: SingleType::Char,
            array_cnt: 0,
        },
    };
    assert_eq!(Descriptor::from(m.clone()), Descriptor::Method(m));
}

#[test]
fn round_trip_rendered_text() {
    // The canonical text of each structured value below parses back to
    // the value it was written from.
    let f = FieldType {
        base: SingleType::Reference(String::from("a/b/C")),
        array_cnt: 2,
    };
    assert_eq!(FieldType::parse("[[La/b/C;"), Some(f));
    let m = MethodType {
        params: vec![
            FieldType {
                base: SingleType::Double,
                array_cnt: 0,
            },
            FieldType {
                base: SingleType::Reference(String::from("Q")),
                array_cnt: 1,
            },
        ],
        ret: FieldType {
            base: SingleType::Short,
            array_cnt: 0,
        },
    };
    assert_eq!(MethodType::parse("(D[LQ;)S"), Some(m));
}

#[test]
fn non_ascii_class_name() {
    assert_eq!(
        FieldType::parse("L\u{3b1}\u{3b2};"),
        Some(FieldType {
            base: SingleType::Reference(String::from("\u{3b1}\u{3b2}")),
            array_cnt: 0
        })
    );
}
