use dumbbell_pro_log::json::{encode_json, Decimal, Json, Member};
use dumbbell_pro_log::jsonparse::parse_json;

fn num(neg: bool, int_part: u64, frac: &[u8]) -> Json {
    Json::Num(Decimal { neg, int_part, frac: frac.to_vec() })
}

#[test]
fn encode_compact_documents() {
    let doc = Json::Obj(vec![
        Member { key: "a".to_string(), val: Json::Arr(vec![Json::Null, Json::Bool(true)]) },
        Member { key: "b".to_string(), val: num(false, 42, &[5]) },
        Member { key: "c".to_string(), val: Json::Str("x\"y\\z".to_string()) },
    ]);
    assert_eq!(encode_json(&doc), "{\"a\":[null,true],\"b\":42.5,\"c\":\"x\\\"y\\\\z\"}");
}

#[test]
fn parse_accepts_whitespace_and_escapes() {
    let v = parse_json(" { \"k\" : [ 1 , -2.50 , \"a\\n\\t\\\"b\" ] } ").expect("parses");
    match v {
        Json::Obj(ms) => {
            assert_eq!(ms.len(), 1);
            assert_eq!(ms[0].key, "k");
            match &ms[0].val {
                Json::Arr(es) => {
                    assert_eq!(es.len(), 3);
                    assert_eq!(es[0], num(false, 1, &[]));
                    assert_eq!(es[1], num(true, 2, &[5, 0]));
                    assert_eq!(es[2], Json::Str("a\n\t\"b".to_string()));
                },
                other => panic!("not an array: {:?}", other),
            }
        },
        other => panic!("not an object: {:?}", other),
    }
}

#[test]
fn parse_rejects_malformed_text() {
    assert_eq!(parse_json(""), None);
    assert_eq!(parse_json("this is not json"), None);
    assert_eq!(parse_json("{\"a\":}"), None);
    assert_eq!(parse_json("[1,]"), None);
    assert_eq!(parse_json("01"), None); // leading zero runs past the number
    assert_eq!(parse_json("1.") , None); // a point needs fraction digits
    assert_eq!(parse_json("\"unterminated"), None);
    assert_eq!(parse_json("{\"a\":1} trailing"), None);
    // integer parts must fit in 64 bits
    assert_eq!(parse_json("99999999999999999999999999"), None);
}

#[test]
fn parse_inverts_encode_on_a_nested_document() {
    let doc = Json::Arr(vec![
        Json::Obj(vec![
            Member { key: "text".to_string(), val: Json::Str("改行\nとタブ\tと引用\"".to_string()) },
            Member { key: "n".to_string(), val: num(true, 0, &[0]) },
        ]),
        Json::Arr(vec![]),
        Json::Obj(vec![]),
        Json::Null,
    ]);
    let printed = encode_json(&doc);
    assert_eq!(parse_json(&printed), Some(doc));
}
