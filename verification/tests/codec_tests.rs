use ast_codec::ast_example;
use ast_codec::decode;
use ast_codec::encode;
use ast_codec::ASTNode;
use ast_codec::ASTNodeData;
use ast_codec::DecodeError;
use ast_codec::Function;
use ast_codec::ReturnValue;
use ast_codec::VariableAssignment;
use ast_codec::While;

fn input_node(id: u32, text: &str) -> ASTNode {
    ASTNode {
        id,
        data: ASTNodeData::Input(text.to_owned()),
    }
}

#[test]
fn ast_executor_test() {
    let expected_json = r#"{
            "id": 0,
            "type": "sequence",
            "data": [
              {
                "id": 1,
                "type": "variableAssignment",
                "data": {
                  "name": "age de Bob",
                  "value": { "id": 2, "type": "input", "data": "6" }
                }
              },
              {
                "id": 3,
                "type": "while",
                "data": {
                  "isDo": false,
                  "condition": { "id": 4, "type": "input", "data": "{age de Bob} < 13" },
                  "sequence": [
                    {
                      "id": 5,
                      "type": "variableAssignment",
                      "data": {
                        "name": "age de Bob",
                        "value": { "id": 6, "type": "input", "data": "{age de Bob} + 1" }
                      }
                    },
                    {
                      "id": 7,
                      "type": "functionCall",
                      "data": {
                        "name": "print",
                        "isBuiltin": true,
                        "argv": [
                          {
                            "id": 8,
                            "type": "input",
                            "data": "Bravo Bob ! tu as maintenant \"{age de Bob}\" ans !"
                          }
                        ]
                      }
                    }
                  ]
                }
              },
              {
                "id": 9,
                "type": "functionCall",
                "data": {
                  "name": "print",
                  "isBuiltin": true,
                  "argv": [
                    {
                      "id": 10,
                      "type": "input",
                      "data": "Bob est parti a l'age de {age de Bob} !"
                    }
                  ]
                }
              }
            ]
          }
          "#;
    let ast_from_str: ASTNode = decode(expected_json).unwrap();

    assert_eq!(ast_example(), ast_from_str);
}

#[test]
fn round_trip_example() {
    let t = ast_example();
    let text = encode(&t);
    assert_eq!(decode(&text).unwrap(), ast_example());
}

#[test]
fn round_trip_all_variants() {
    let t = ASTNode {
        id: 0,
        data: ASTNodeData::IfElse(ast_codec::IfElse {
            if_: ast_codec::If {
                condition: Box::new(input_node(1, "a")),
                sequence: vec![input_node(2, "b")],
            },
            elif: Some(vec![ast_codec::If {
                condition: Box::new(input_node(3, "c")),
                sequence: vec![],
            }]),
            else_: Some(ast_codec::If {
                condition: Box::new(input_node(4, "")),
                sequence: vec![input_node(5, "d")],
            }),
        }),
    };
    let text = encode(&t);
    let back = decode(&text).unwrap();
    assert_eq!(back, t);
}

#[test]
fn round_trip_absent_branches() {
    let t = ASTNode {
        id: 7,
        data: ASTNodeData::IfElse(ast_codec::IfElse {
            if_: ast_codec::If {
                condition: Box::new(input_node(8, "x")),
                sequence: vec![],
            },
            elif: None,
            else_: None,
        }),
    };
    let back = decode(&encode(&t)).unwrap();
    assert_eq!(back, t);
}

#[test]
fn round_trip_string_escapes() {
    let t = input_node(1, "line\nquote\"back\\slash\ttab\rret\u{8}\u{c}\u{1}end");
    let back = decode(&encode(&t)).unwrap();
    assert_eq!(back, t);
}

#[test]
fn exact_canonical_text() {
    let t = input_node(2, "6");
    assert_eq!(encode(&t), "{\"id\":2,\"type\":\"input\",\"data\":\"6\"}");
    let a = ASTNode {
        id: 1,
        data: ASTNodeData::VariableAssignment(VariableAssignment {
            name: "age".to_owned(),
            value: Box::new(input_node(2, "6")),
        }),
    };
    assert_eq!(
        encode(&a),
        "{\"id\":1,\"type\":\"variableAssignment\",\"data\":{\"name\":\"age\",\"value\":{\"id\":2,\"type\":\"input\",\"data\":\"6\"}}}"
    );
}

#[test]
fn unknown_tag_fails() {
    let r = decode("{\"id\":0,\"type\":\"mystery\",\"data\":[]}");
    assert_eq!(r, Err(DecodeError::UnknownTag));
}

#[test]
fn while_missing_is_do_fails() {
    let text = "{\"id\":0,\"type\":\"while\",\"data\":{\"condition\":{\"id\":1,\"type\":\"input\",\"data\":\"x\"},\"sequence\":[]}}";
    assert_eq!(decode(text), Err(DecodeError::MissingField));
}

#[test]
fn missing_field_cases() {
    assert_eq!(
        decode("{\"type\":\"input\",\"data\":\"x\"}"),
        Err(DecodeError::MissingField)
    );
    assert_eq!(
        decode("{\"id\":1,\"data\":\"x\"}"),
        Err(DecodeError::MissingField)
    );
    assert_eq!(
        decode("{\"id\":1,\"type\":\"input\"}"),
        Err(DecodeError::MissingField)
    );
}

#[test]
fn type_mismatch_cases() {
    assert_eq!(decode("[1,2]"), Err(DecodeError::TypeMismatch));
    assert_eq!(
        decode("{\"id\":\"zero\",\"type\":\"input\",\"data\":\"x\"}"),
        Err(DecodeError::TypeMismatch)
    );
    assert_eq!(
        decode("{\"id\":1,\"type\":\"input\",\"data\":7}"),
        Err(DecodeError::TypeMismatch)
    );
    assert_eq!(
        decode("{\"id\":1,\"type\":\"sequence\",\"data\":{}}"),
        Err(DecodeError::TypeMismatch)
    );
    assert_eq!(
        decode("{\"id\":4294967296,\"type\":\"input\",\"data\":\"x\"}"),
        Err(DecodeError::TypeMismatch)
    );
}

#[test]
fn syntax_error_cases() {
    assert_eq!(decode(""), Err(DecodeError::Syntax));
    assert_eq!(decode("{\"id\":1"), Err(DecodeError::Syntax));
    assert_eq!(decode("nope"), Err(DecodeError::Syntax));
    assert_eq!(
        decode("{\"id\":1,\"type\":\"input\",\"data\":\"x\"} trailing"),
        Err(DecodeError::Syntax)
    );
}

#[test]
fn order_preserved_three_nodes() {
    let t = ASTNode {
        id: 0,
        data: ASTNodeData::Sequence(vec![
            input_node(1, "first"),
            input_node(2, "second"),
            input_node(3, "third"),
        ]),
    };
    let text = encode(&t);
    let back = decode(&text).unwrap();
    let again = encode(&back);
    assert_eq!(text, again);
    match back.data {
        ASTNodeData::Sequence(ns) => {
            assert_eq!(ns[0].id, 1);
            assert_eq!(ns[1].id, 2);
            assert_eq!(ns[2].id, 3);
        }
        _ => panic!("expected a sequence"),
    }
}

#[test]
fn key_order_and_whitespace_tolerated() {
    let text = " { \"data\" : \"6\" , \"type\" : \"input\" , \"id\" : 2 } ";
    assert_eq!(decode(text).unwrap(), input_node(2, "6"));
}

#[test]
fn unicode_escape_decoding() {
    let t = decode("{\"id\":1,\"type\":\"input\",\"data\":\"a\\u0041\\n\"}").unwrap();
    assert_eq!(t, input_node(1, "aA\n"));
}

#[test]
fn rendering_cases() {
    assert_eq!(ReturnValue::Int(6).render(), "6");
    assert_eq!(ReturnValue::Bool(true).render(), "true");
    assert_eq!(ReturnValue::Bool(false).render(), "false");
    assert_eq!(ReturnValue::Empty.render(), "None");
    assert_eq!(ReturnValue::Int(-42).render(), "-42");
    assert_eq!(ReturnValue::Int(0).render(), "0");
    assert_eq!(ReturnValue::Int(i64::MIN).render(), "-9223372036854775808");
    assert_eq!(ReturnValue::Int(i64::MAX).render(), "9223372036854775807");
    assert_eq!(ReturnValue::Text("hello".to_owned()).render(), "hello");
}

#[test]
fn return_value_equality() {
    assert_eq!(ReturnValue::Int(1), ReturnValue::Int(1));
    assert_ne!(ReturnValue::Int(1), ReturnValue::Bool(true));
    assert_ne!(ReturnValue::Text("1".to_owned()), ReturnValue::Int(1));
}

#[test]
fn equality_is_id_sensitive() {
    let a = ASTNode {
        id: 0,
        data: ASTNodeData::Sequence(vec![input_node(1, "x")]),
    };
    let b = ASTNode {
        id: 0,
        data: ASTNodeData::Sequence(vec![input_node(2, "x")]),
    };
    assert_ne!(a, b);
    assert_ne!(encode(&a), encode(&b));
}

#[test]
fn canonical_scenario() {
    let text = "{\"id\":0,\"type\":\"sequence\",\"data\":[{\"id\":1,\"type\":\"variableAssignment\",\"data\":{\"name\":\"age\",\"value\":{\"id\":2,\"type\":\"input\",\"data\":\"6\"}}}]}";
    let t = decode(text).unwrap();
    assert_eq!(t.id, 0);
    match &t.data {
        ASTNodeData::Sequence(ns) => {
            assert_eq!(ns.len(), 1);
            assert_eq!(ns[0].id, 1);
            match &ns[0].data {
                ASTNodeData::VariableAssignment(a) => {
                    assert_eq!(a.name, "age");
                    assert_eq!(a.value.id, 2);
                    assert_eq!(a.value.data, ASTNodeData::Input("6".to_owned()));
                }
                _ => panic!("expected an assignment"),
            }
        }
        _ => panic!("expected a sequence"),
    }
    assert_eq!(encode(&t), text);
}

#[test]
fn while_do_flag_round_trip() {
    let t = ASTNode {
        id: 0,
        data: ASTNodeData::While(While {
            is_do: true,
            condition: Box::new(input_node(1, "cond")),
            sequence: vec![ASTNode {
                id: 2,
                data: ASTNodeData::FunctionCall(Function {
                    name: "step".to_owned(),
                    is_builtin: false,
                    argv: vec![],
                }),
            }],
        }),
    };
    let back = decode(&encode(&t)).unwrap();
    assert_eq!(back, t);
}

#[test]
fn encoded_text_is_valid_json_to_serde() {
    let text = encode(&ast_example());
    let v: serde_json::Value = serde_json::from_str(&text).unwrap();
    assert_eq!(v["id"], serde_json::Value::from(0u64));
    assert_eq!(v["type"], serde_json::Value::from("sequence"));
    assert_eq!(v["data"][0]["id"], serde_json::Value::from(1u64));
    assert_eq!(
        v["data"][1]["data"]["isDo"],
        serde_json::Value::from(false)
    );
    assert_eq!(
        v["data"][2]["data"]["argv"][0]["data"],
        serde_json::Value::from("Bob est parti a l'age de {age de Bob} !")
    );
}

#[test]
fn dfs_order_example() {
    let ids = ast_example().dfs_ids();
    assert_eq!(ids, vec![0, 1, 2, 3, 4, 5, 6, 7, 8, 9, 10]);
}

#[test]
fn dfs_condition_before_body() {
    let t = ASTNode {
        id: 0,
        data: ASTNodeData::IfElse(ast_codec::IfElse {
            if_: ast_codec::If {
                condition: Box::new(input_node(1, "c")),
                sequence: vec![input_node(2, "b")],
            },
            elif: Some(vec![ast_codec::If {
                condition: Box::new(input_node(3, "c2")),
                sequence: vec![input_node(4, "b2")],
            }]),
            else_: Some(ast_codec::If {
                condition: Box::new(input_node(5, "")),
                sequence: vec![input_node(6, "e")],
            }),
        }),
    };
    assert_eq!(t.dfs_ids(), vec![0, 1, 2, 3, 4, 5, 6]);
}

#[test]
fn empty_elif_is_rejected() {
    let text = "{\"id\":0,\"type\":\"ifElse\",\"data\":{\"if\":{\"condition\":{\"id\":1,\"type\":\"input\",\"data\":\"c\"},\"sequence\":[]},\"elif\":[],\"else\":null}}";
    assert_eq!(decode(text), Err(DecodeError::TypeMismatch));
}

#[test]
fn null_elif_is_absent() {
    let text = "{\"id\":0,\"type\":\"ifElse\",\"data\":{\"if\":{\"condition\":{\"id\":1,\"type\":\"input\",\"data\":\"c\"},\"sequence\":[]},\"elif\":null,\"else\":null}}";
    let t = decode(text).unwrap();
    match t.data {
        ASTNodeData::IfElse(ie) => {
            assert_eq!(ie.elif, None);
            assert_eq!(ie.else_, None);
        }
        _ => panic!("expected a conditional"),
    }
}
