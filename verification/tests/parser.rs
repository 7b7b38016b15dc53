use tiny_calc_core::ast::{BinaryOp, Calculation, Expr, Formatter, Integer, Op};
use tiny_calc_core::error::ParseError;
use tiny_calc_core::parser::{parse, parse_enum};

fn leaf(value: i64) -> Box<Expr> {
    Box::new(Expr::Integer(Integer { value }))
}

fn node(lhs: Box<Expr>, op: Op, rhs: Box<Expr>) -> Box<Expr> {
    Box::new(Expr::BinaryOp(BinaryOp { lhs, rhs, op }))
}

fn tree(input: &str) -> Expr {
    let calc = parse(input).unwrap();
    assert_eq!(calc.formatter, None);
    calc.expr
}

#[test]
fn parse_works() {
    let output = parse("1").unwrap();
    assert_eq!(
        output,
        Calculation {
            expr: Expr::Integer(Integer { value: 1i64 }),
            formatter: None
        }
    );

    let output = parse("2 + 3").unwrap();
    assert_eq!(
        output,
        Calculation {
            expr: Expr::BinaryOp(BinaryOp {
                lhs: Box::new(Expr::Integer(Integer { value: 2 })),
                op: Op::Add,
                rhs: Box::new(Expr::Integer(Integer { value: 3 })),
            }),
            formatter: None
        }
    );

    let output = parse("2 - 3").unwrap();
    assert_eq!(
        output,
        Calculation {
            expr: Expr::BinaryOp(BinaryOp {
                lhs: Box::new(Expr::Integer(Integer { value: 2 })),
                op: Op::Sub,
                rhs: Box::new(Expr::Integer(Integer { value: 3 })),
            }),
            formatter: None
        }
    );

    let output = parse("2 * 3").unwrap();
    assert_eq!(
        output,
        Calculation {
            expr: Expr::BinaryOp(BinaryOp {
                lhs: Box::new(Expr::Integer(Integer { value: 2 })),
                op: Op::Mul,
                rhs: Box::new(Expr::Integer(Integer { value: 3 })),
            }),
            formatter: None
        }
    );

    let output = parse("2 - 1 * 3").unwrap();
    assert_eq!(
        output,
        Calculation {
            expr: Expr::BinaryOp(BinaryOp {
                lhs: Box::new(Expr::Integer(Integer { value: 2 })),
                rhs: Box::new(Expr::BinaryOp(BinaryOp {
                    lhs: Box::new(Expr::Integer(Integer { value: 1 })),
                    rhs: Box::new(Expr::Integer(Integer { value: 3 })),
                    op: Op::Mul
                })),
                op: Op::Sub
            }),
            formatter: None
        }
    );

    let output = parse("10 - 2 * 3 + 1").unwrap();

    assert_eq!(
        output,
        Calculation {
            expr: Expr::BinaryOp(BinaryOp {
                lhs: Box::new(Expr::BinaryOp(BinaryOp {
                    lhs: Box::new(Expr::Integer(Integer { value: 10 })),
                    rhs: Box::new(Expr::BinaryOp(BinaryOp {
                        lhs: Box::new(Expr::Integer(Integer { value: 2 })),
                        rhs: Box::new(Expr::Integer(Integer { value: 3 })),
                        op: Op::Mul
                    })),
                    op: Op::Sub
                })),
                rhs: Box::new(Expr::Integer(Integer { value: 1 })),
                op: Op::Add
            }),
            formatter: None
        }
    );
}

#[test]
fn subtraction_groups_to_the_left() {
    assert_eq!(
        tree("10 - 2 - 3"),
        *node(node(leaf(10), Op::Sub, leaf(2)), Op::Sub, leaf(3))
    );
}

#[test]
fn division_and_multiplication_group_to_the_left() {
    assert_eq!(
        tree("8 / 4 * 2"),
        *node(node(leaf(8), Op::Div, leaf(4)), Op::Mul, leaf(2))
    );
}

#[test]
fn power_groups_to_the_right() {
    assert_eq!(
        tree("2 ^ 2 ^ 3"),
        *node(leaf(2), Op::Pow, node(leaf(2), Op::Pow, leaf(3)))
    );
}

#[test]
fn power_binds_tighter_than_product_and_product_than_sum() {
    assert_eq!(
        tree("1 + 2 * 3 ^ 4 * 5 - 6"),
        *node(
            node(
                leaf(1),
                Op::Add,
                node(
                    node(leaf(2), Op::Mul, node(leaf(3), Op::Pow, leaf(4))),
                    Op::Mul,
                    leaf(5)
                )
            ),
            Op::Sub,
            leaf(6)
        )
    );
}

#[test]
fn parentheses_leave_no_node() {
    assert_eq!(
        tree("2 * (3 + 4)"),
        *node(leaf(2), Op::Mul, node(leaf(3), Op::Add, leaf(4)))
    );
    assert_eq!(tree("((7))"), *leaf(7));
    assert_eq!(
        tree("(1 + 2) ^ (3)"),
        *node(node(leaf(1), Op::Add, leaf(2)), Op::Pow, leaf(3))
    );
}

#[test]
fn blanks_are_ignored_around_tokens() {
    assert_eq!(tree("  1+2  "), *node(leaf(1), Op::Add, leaf(2)));
    assert_eq!(tree("\t( 1\t+ 2 )\t"), *node(leaf(1), Op::Add, leaf(2)));
    assert_eq!(tree("1 +2"), *node(leaf(1), Op::Add, leaf(2)));
}

#[test]
fn literals_in_three_bases() {
    assert_eq!(tree("0xff"), *leaf(255));
    assert_eq!(tree("0xFF"), *leaf(255));
    assert_eq!(tree("0xDeadBeef"), *leaf(0xdead_beef));
    assert_eq!(tree("0b101"), *leaf(5));
    assert_eq!(tree("007"), *leaf(7));
    assert_eq!(tree("0"), *leaf(0));
}

#[test]
fn minus_sign_belongs_to_a_decimal_literal() {
    assert_eq!(tree("-5"), *leaf(-5));
    assert_eq!(tree("2 ^ -1"), *node(leaf(2), Op::Pow, leaf(-1)));
    assert_eq!(tree("1 - -1"), *node(leaf(1), Op::Sub, leaf(-1)));
    assert_eq!(tree("1 -1"), *node(leaf(1), Op::Sub, leaf(1)));
    assert_eq!(tree("1-1"), *node(leaf(1), Op::Sub, leaf(1)));
    assert_eq!(parse("- 5"), Err(ParseError::SyntaxError));
    assert_eq!(parse("-(5)"), Err(ParseError::SyntaxError));
    assert_eq!(parse("-0x5"), Err(ParseError::SyntaxError));
    assert_eq!(parse("+5"), Err(ParseError::SyntaxError));
}

#[test]
fn literals_at_the_ends_of_the_range() {
    assert_eq!(tree("9223372036854775807"), *leaf(i64::MAX));
    assert_eq!(tree("-9223372036854775808"), *leaf(i64::MIN));
    assert_eq!(tree("0x7fffffffffffffff"), *leaf(i64::MAX));
    assert_eq!(
        tree("0b111111111111111111111111111111111111111111111111111111111111111"),
        *leaf(i64::MAX)
    );
    assert_eq!(tree("000000000000000000000000000000000001"), *leaf(1));
}

#[test]
fn literals_out_of_range_are_overflows() {
    assert_eq!(
        parse("9223372036854775808"),
        Err(ParseError::LiteralOverflow)
    );
    assert_eq!(
        parse("-9223372036854775809"),
        Err(ParseError::LiteralOverflow)
    );
    assert_eq!(
        parse("0x8000000000000000"),
        Err(ParseError::LiteralOverflow)
    );
    assert_eq!(
        parse("0b1000000000000000000000000000000000000000000000000000000000000000"),
        Err(ParseError::LiteralOverflow)
    );
    assert_eq!(
        parse("99999999999999999999999999999999999999999999"),
        Err(ParseError::LiteralOverflow)
    );
    assert_eq!(
        parse("1 + (2 * 99999999999999999999)"),
        Err(ParseError::LiteralOverflow)
    );
}

#[test]
fn first_failure_from_the_left_wins() {
    assert_eq!(
        parse("99999999999999999999 +"),
        Err(ParseError::LiteralOverflow)
    );
    assert_eq!(
        parse(") 99999999999999999999"),
        Err(ParseError::SyntaxError)
    );
    assert_eq!(
        parse("1 + * 99999999999999999999"),
        Err(ParseError::SyntaxError)
    );
}

#[test]
fn formatter_directives() {
    assert_eq!(
        parse("7 #x"),
        Ok(Calculation {
            expr: *leaf(7),
            formatter: Some(Formatter::Hex)
        })
    );
    assert_eq!(
        parse("7 #b"),
        Ok(Calculation {
            expr: *leaf(7),
            formatter: Some(Formatter::Binary)
        })
    );
    assert_eq!(
        parse("7#x  "),
        Ok(Calculation {
            expr: *leaf(7),
            formatter: Some(Formatter::Hex)
        })
    );
    assert_eq!(parse("7 #X"), Err(ParseError::SyntaxError));
    assert_eq!(parse("7 #B"), Err(ParseError::SyntaxError));
    assert_eq!(parse("7 # x"), Err(ParseError::SyntaxError));
    assert_eq!(parse("7 #"), Err(ParseError::SyntaxError));
    assert_eq!(parse("7 #x #b"), Err(ParseError::SyntaxError));
    assert_eq!(parse("7 #x 1"), Err(ParseError::SyntaxError));
    assert_eq!(parse("#x"), Err(ParseError::SyntaxError));
    assert_eq!(parse("#x 7"), Err(ParseError::SyntaxError));
}

#[test]
fn syntax_errors() {
    assert_eq!(parse("1 +"), Err(ParseError::SyntaxError));
    assert_eq!(parse("(1 + 2"), Err(ParseError::SyntaxError));
    assert_eq!(parse("1 2"), Err(ParseError::SyntaxError));
    assert_eq!(parse(""), Err(ParseError::SyntaxError));
    assert_eq!(parse("   "), Err(ParseError::SyntaxError));
    assert_eq!(parse("1 + 2)"), Err(ParseError::SyntaxError));
    assert_eq!(parse("()"), Err(ParseError::SyntaxError));
    assert_eq!(parse("* 2"), Err(ParseError::SyntaxError));
    assert_eq!(parse("2 ** 3"), Err(ParseError::SyntaxError));
    assert_eq!(parse("2 ^"), Err(ParseError::SyntaxError));
    assert_eq!(parse("0x"), Err(ParseError::SyntaxError));
    assert_eq!(parse("0b"), Err(ParseError::SyntaxError));
    assert_eq!(parse("0b2"), Err(ParseError::SyntaxError));
    assert_eq!(parse("0b12"), Err(ParseError::SyntaxError));
    assert_eq!(parse("0xg"), Err(ParseError::SyntaxError));
    assert_eq!(parse("0X10"), Err(ParseError::SyntaxError));
    assert_eq!(parse("12abc"), Err(ParseError::SyntaxError));
    assert_eq!(parse("1 + a"), Err(ParseError::SyntaxError));
    assert_eq!(parse("1\n"), Err(ParseError::SyntaxError));
    assert_eq!(parse("1 + \u{663}"), Err(ParseError::SyntaxError));
    assert_eq!(parse("\u{e9}"), Err(ParseError::SyntaxError));
}

#[test]
fn parse_enum_reads_one_literal() {
    assert_eq!(parse_enum("10"), Ok(*leaf(10)));
    assert_eq!(parse_enum("-10"), Ok(*leaf(-10)));
    assert_eq!(parse_enum("0x1F"), Ok(*leaf(31)));
    assert_eq!(parse_enum("0b11"), Ok(*leaf(3)));
    assert_eq!(parse_enum(""), Err(ParseError::SyntaxError));
    assert_eq!(parse_enum(" 10"), Err(ParseError::SyntaxError));
    assert_eq!(parse_enum("10 "), Err(ParseError::SyntaxError));
    assert_eq!(parse_enum("1+2"), Err(ParseError::SyntaxError));
    assert_eq!(
        parse_enum("9223372036854775808"),
        Err(ParseError::LiteralOverflow)
    );
}
