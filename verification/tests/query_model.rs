use mazzaroth_rs::codec::CodecError;
use mazzaroth_rs::decoder::Decoder;
use mazzaroth_rs::encoder::write_u32;
use mazzaroth_rs::query::{filter_eq, BinaryOperator, BinaryValue, BoolCategory, BoolNode, BoolType,
    BooleanExpr, Filter, Insert, Op, OpType, Query, Select, ID};

#[test]
fn filter_basic_eq() {
    let result = filter_eq("left_hand".to_string(), "right_hand".to_string());
    let expected = vec![Op::FILTER(Filter {
        expression: BooleanExpr {
            root: BoolNode {
                value: BoolType::OP(BinaryOperator::EQUAL),
                left: vec![BoolNode {
                    value: BoolType::IDENT("left_hand".to_string()),
                    left: vec![],
                    right: vec![],
                }],
                right: vec![BoolNode {
                    value: BoolType::IDENT("right_hand".to_string()),
                    left: vec![],
                    right: vec![],
                }],
            },
        },
    })];
    assert_eq!(expected, result);
}

#[test]
fn insert_macro() {
    let value = Select::default();
    let mut insert_value = Vec::new();
    value.encode(&mut insert_value).unwrap();
    let result = Insert {
        table: "CoolTable".to_string(),
        data: insert_value,
    };
    assert_eq!(
        Insert {
            table: "CoolTable".to_string(),
            data: vec![0, 0, 0, 0],
        },
        result
    );
}

#[test]
fn empty_select_encodes_as_zero_count() {
    // an empty variable array encodes as a 4-byte zero length prefix
    let mut out = Vec::new();
    Select::default().encode(&mut out).unwrap();
    assert_eq!(vec![0, 0, 0, 0], out);
}

#[test]
fn insert_fixture_encoding() {
    let mut row = Vec::new();
    Select { props: vec![] }.encode(&mut row).unwrap();
    let insert = Insert {
        table: "CoolTable".to_string(),
        data: row,
    };
    let mut out = Vec::new();
    insert.encode(&mut out).unwrap();
    let mut expected = vec![9, 0, 0, 0];
    expected.extend_from_slice(b"CoolTable");
    expected.extend_from_slice(&[4, 0, 0, 0, 0, 0, 0, 0]);
    assert_eq!(expected, out);
}

#[test]
fn insert_round_trip() {
    let insert = Insert {
        table: "CoolTable".to_string(),
        data: vec![0, 0, 0, 0],
    };
    let mut out = Vec::new();
    insert.encode(&mut out).unwrap();
    let mut dec = Decoder::new(out.as_slice());
    let back = Insert::decode(&mut dec).unwrap();
    assert_eq!(insert, back);
    assert_eq!(out.len(), dec.position());
}

#[test]
fn operator_tree_round_trip() {
    // an operator node with exactly one left and one right child decodes
    // back to the exact structure
    let ops = filter_eq("price".to_string(), "limit".to_string());
    let mut out = Vec::new();
    ops[0].encode(&mut out).unwrap();
    let mut dec = Decoder::new(out.as_slice());
    let back = Op::decode(&mut dec, 8).unwrap();
    assert_eq!(ops[0], back);
    match back {
        Op::FILTER(f) => {
            assert_eq!(1, f.expression.root.left.len());
            assert_eq!(1, f.expression.root.right.len());
        }
        Op::SELECT(_) => panic!("decoded the wrong variant"),
    }
}

#[test]
fn leaf_decodes_with_zero_children() {
    let leaf = BoolNode {
        value: BoolType::BOOL(true),
        left: vec![],
        right: vec![],
    };
    let mut out = Vec::new();
    leaf.encode(&mut out).unwrap();
    let mut dec = Decoder::new(out.as_slice());
    let back = BoolNode::decode(&mut dec, 1).unwrap();
    assert_eq!(0, back.left.len());
    assert_eq!(0, back.right.len());
    assert_eq!(leaf, back);
}

#[test]
fn value_leaf_round_trip() {
    let leaf = BoolNode {
        value: BoolType::VALUE(BinaryValue { t: vec![7, 8, 9] }),
        left: vec![],
        right: vec![],
    };
    let mut out = Vec::new();
    leaf.encode(&mut out).unwrap();
    let mut dec = Decoder::new(out.as_slice());
    assert_eq!(leaf, BoolNode::decode(&mut dec, 3).unwrap());
}

#[test]
fn tree_deeper_than_allowance_is_rejected() {
    let ops = filter_eq("a".to_string(), "b".to_string());
    let mut out = Vec::new();
    match &ops[0] {
        Op::FILTER(f) => f.expression.encode(&mut out).unwrap(),
        Op::SELECT(_) => unreachable!(),
    }
    let mut dec = Decoder::new(out.as_slice());
    // the tree has height 2; an allowance of 1 rejects it
    assert_eq!(
        Err(CodecError::InvalidEncoding),
        BooleanExpr::decode(&mut dec, 1)
    );
    let mut dec2 = Decoder::new(out.as_slice());
    assert!(BooleanExpr::decode(&mut dec2, 2).is_ok());
}

#[test]
fn truncated_tree_reports_end_of_input() {
    let ops = filter_eq("left".to_string(), "right".to_string());
    let mut out = Vec::new();
    ops[0].encode(&mut out).unwrap();
    for cut in 0..out.len() {
        let mut dec = Decoder::new(&out[..cut]);
        assert_eq!(
            Err(CodecError::UnexpectedEndOfInput),
            Op::decode(&mut dec, 8),
            "prefix of {} bytes",
            cut
        );
    }
}

#[test]
fn truncated_insert_reports_end_of_input() {
    let insert = Insert {
        table: "T".to_string(),
        data: vec![1, 2, 3],
    };
    let mut out = Vec::new();
    insert.encode(&mut out).unwrap();
    for cut in 0..out.len() {
        let mut dec = Decoder::new(&out[..cut]);
        assert_eq!(
            Err(CodecError::UnexpectedEndOfInput),
            Insert::decode(&mut dec)
        );
    }
}

#[test]
fn bool_type_unknown_discriminant() {
    let mut bytes = Vec::new();
    write_u32(&mut bytes, 4);
    write_u32(&mut bytes, 0);
    let mut dec = Decoder::new(bytes.as_slice());
    assert_eq!(
        Err(CodecError::UnknownVariant),
        BoolType::decode(&mut dec)
    );
}

#[test]
fn op_unknown_discriminant() {
    let mut bytes = Vec::new();
    write_u32(&mut bytes, 2);
    write_u32(&mut bytes, 0);
    let mut dec = Decoder::new(bytes.as_slice());
    assert_eq!(Err(CodecError::UnknownVariant), Op::decode(&mut dec, 8));
}

#[test]
fn operator_unknown_discriminant() {
    let mut bytes = Vec::new();
    write_u32(&mut bytes, 5);
    let mut dec = Decoder::new(bytes.as_slice());
    assert_eq!(
        Err(CodecError::UnknownVariant),
        BinaryOperator::decode(&mut dec)
    );
}

#[test]
fn query_no_op_is_identity_shape() {
    // an empty operation list is legal and denotes the identity over the
    // source table: no projection, no filter
    let query = Query {
        source: "T".to_string(),
        operations: vec![],
    };
    let mut out = Vec::new();
    query.encode(&mut out).unwrap();
    let mut expected = vec![1, 0, 0, 0];
    expected.extend_from_slice(b"T");
    expected.extend_from_slice(&[0, 0, 0, 0]);
    assert_eq!(expected, out);
    let mut dec = Decoder::new(out.as_slice());
    let back = Query::decode(&mut dec, 8).unwrap();
    assert_eq!(query, back);
    assert!(back.is_identity());
    assert!(back.operations.is_empty());
}

#[test]
fn query_round_trip() {
    let mut operations = vec![Op::SELECT(Select {
        props: vec![
            ID {
                t: "name".to_string(),
            },
            ID {
                t: "balance".to_string(),
            },
        ],
    })];
    operations.append(&mut filter_eq("name".to_string(), "wanted".to_string()));
    let query = Query {
        source: "Accounts".to_string(),
        operations,
    };
    let mut out = Vec::new();
    query.encode(&mut out).unwrap();
    let mut dec = Decoder::new(out.as_slice());
    assert_eq!(query, Query::decode(&mut dec, 8).unwrap());
}

#[test]
fn truncated_query_reports_end_of_input() {
    let query = Query {
        source: "T".to_string(),
        operations: filter_eq("a".to_string(), "b".to_string()),
    };
    let mut out = Vec::new();
    query.encode(&mut out).unwrap();
    for cut in 0..out.len() {
        let mut dec = Decoder::new(&out[..cut]);
        assert_eq!(
            Err(CodecError::UnexpectedEndOfInput),
            Query::decode(&mut dec, 8)
        );
    }
}

#[test]
fn query_source_over_sixty_four_bytes_is_rejected() {
    let query = Query {
        source: "x".repeat(65),
        operations: vec![],
    };
    let mut out = Vec::new();
    assert_eq!(Err(CodecError::InvalidEncoding), query.encode(&mut out));
    assert!(out.is_empty());
}

#[test]
fn wire_ordinals_are_fixed() {
    assert_eq!(0, BinaryOperator::EQUAL.ordinal());
    assert_eq!(1, BinaryOperator::LT.ordinal());
    assert_eq!(2, BinaryOperator::GT.ordinal());
    assert_eq!(3, BinaryOperator::OR.ordinal());
    assert_eq!(4, BinaryOperator::AND.ordinal());
    assert_eq!(0, BoolCategory::BOOL.ordinal());
    assert_eq!(1, BoolCategory::IDENT.ordinal());
    assert_eq!(2, BoolCategory::OP.ordinal());
    assert_eq!(3, BoolCategory::VALUE.ordinal());
}

#[test]
fn node_value_categories() {
    assert_eq!(BoolCategory::BOOL, BoolType::BOOL(false).category());
    assert_eq!(
        BoolCategory::IDENT,
        BoolType::IDENT("x".to_string()).category()
    );
    assert_eq!(
        BoolCategory::OP,
        BoolType::OP(BinaryOperator::AND).category()
    );
    assert_eq!(
        BoolCategory::VALUE,
        BoolType::VALUE(BinaryValue { t: vec![] }).category()
    );
}

#[test]
fn model_defaults() {
    assert_eq!(BinaryOperator::EQUAL, BinaryOperator::default());
    assert_eq!(BoolCategory::BOOL, BoolCategory::default());
    assert_eq!(OpType::SELECT, OpType::default());
    assert_eq!(BoolType::BOOL(false), BoolType::default());
    assert_eq!(Op::SELECT(Select { props: vec![] }), Op::default());
    let node = BoolNode::default();
    assert_eq!(BoolType::BOOL(false), node.value);
    assert!(node.left.is_empty() && node.right.is_empty());
    let query = Query::default();
    assert_eq!("", query.source);
    assert!(query.operations.is_empty());
}
