use tiny_calc_core::ast::{BinaryOp, Calculation, Expr, Formatter, Integer, Op};
use tiny_calc_core::evaluator::eval;
use tiny_calc_core::parser::parse;

const SAMPLES: [i64; 14] = [
    0,
    1,
    -1,
    7,
    10,
    -10,
    99,
    100,
    -4096,
    1234567890123,
    i64::MAX,
    i64::MAX - 1,
    i64::MIN,
    i64::MIN + 1,
];

#[test]
fn decimal_text_of_a_value_parses_and_evaluates_to_it() {
    for n in SAMPLES {
        let line = n.to_string();
        let calc = parse(&line).unwrap();
        assert_eq!(
            calc,
            Calculation {
                expr: Expr::Integer(Integer { value: n }),
                formatter: None
            }
        );
        let found = eval(calc).unwrap();
        assert_eq!(found.value, n);
        assert_eq!(found.text, line);
    }
}

#[test]
fn rendering_of_a_result_parses_back_to_the_same_value() {
    let lines = [
        "1 - 2",
        "2 ^ 62 + (2 ^ 62 - 1)",
        "0 - 9223372036854775807 - 1",
        "100 / 7",
        "0xff * 0b11",
        "-3 ^ 3",
    ];
    for line in lines {
        let first = eval(parse(line).unwrap()).unwrap();
        let second = eval(parse(&first.text).unwrap()).unwrap();
        assert_eq!(second.value, first.value);
        assert_eq!(second.text, first.text);
    }
}

#[test]
fn based_rendering_of_a_value_from_zero_up_parses_back() {
    for n in SAMPLES {
        if n < 0 {
            continue;
        }
        for formatter in [Formatter::Hex, Formatter::Binary] {
            let shown = eval(Calculation {
                expr: Expr::Integer(Integer { value: n }),
                formatter: Some(formatter),
            })
            .unwrap();
            assert_eq!(
                parse(&shown.text),
                Ok(Calculation {
                    expr: Expr::Integer(Integer { value: n }),
                    formatter: None
                })
            );
        }
    }
}

#[test]
fn text_written_out_in_full_parses_to_its_tree() {
    let leaf = |value: i64| Box::new(Expr::Integer(Integer { value }));
    let node = |lhs: Box<Expr>, op: Op, rhs: Box<Expr>| {
        Box::new(Expr::BinaryOp(BinaryOp { lhs, rhs, op }))
    };
    assert_eq!(
        parse("((1+2)*-3)").unwrap().expr,
        *node(node(leaf(1), Op::Add, leaf(2)), Op::Mul, leaf(-3))
    );
    assert_eq!(
        parse("((2^3)^(1--1))").unwrap().expr,
        *node(
            node(leaf(2), Op::Pow, leaf(3)),
            Op::Pow,
            node(leaf(1), Op::Sub, leaf(-1))
        )
    );
    assert_eq!(
        parse("(1-(2-(3/4)))").unwrap().expr,
        *node(
            leaf(1),
            Op::Sub,
            node(leaf(2), Op::Sub, node(leaf(3), Op::Div, leaf(4)))
        )
    );
    assert_eq!(
        parse("(-9223372036854775808+0)").unwrap().expr,
        *node(leaf(i64::MIN), Op::Add, leaf(0))
    );
}

#[test]
fn operators_are_spelled_by_their_symbols() {
    for op in [Op::Add, Op::Sub, Op::Mul, Op::Div, Op::Pow] {
        assert_eq!(Op::from_char(op.symbol()), Some(op));
    }
    assert_eq!(Op::Add.symbol(), '+');
    assert_eq!(Op::Sub.symbol(), '-');
    assert_eq!(Op::Mul.symbol(), '*');
    assert_eq!(Op::Div.symbol(), '/');
    assert_eq!(Op::Pow.symbol(), '^');
}
