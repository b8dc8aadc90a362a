use cx::frontend::ast::{expr_pos, AstValue, Expr, Op};

#[test]
fn expression_positions() {
    assert_eq!(expr_pos(&Expr::Val(AstValue::Num(1))), 0);
    assert_eq!(expr_pos(&Expr::Ident("x".to_string(), 7)), 7);
    assert_eq!(expr_pos(&Expr::DotAccess("t".to_string(), "x".to_string())), 0);
    assert_eq!(expr_pos(&Expr::HandleVal("h".to_string(), 3)), 3);
    assert_eq!(expr_pos(&Expr::Call("f".to_string(), vec![], 12)), 12);
    let bin = Expr::Bin(Box::new(Expr::Ident("a".to_string(), 1)), Op::Plus, 4, Box::new(Expr::Ident("b".to_string(), 6)));
    assert_eq!(expr_pos(&bin), 4);
    let range = Expr::Range(Box::new(Expr::Ident("lo".to_string(), 9)), Box::new(Expr::Ident("hi".to_string(), 13)), true);
    assert_eq!(expr_pos(&range), 9);
    let neg = Expr::Unary(Op::Minus, Box::new(Expr::Val(AstValue::Num(2))), 5);
    assert_eq!(expr_pos(&neg), 5);
}
