use monkey::ast::{Expression, Program, Statement};
#[test]
fn test_string() {
    let program = Program {
        statements: vec![
            Statement::LetStatement {
                name: "myVar".to_string(),
                value: Expression::Identifier("anotherVar".to_string()),
            },
            Statement::ReturnStatement(Expression::IntegerLiteral(5)),
        ],
    };
    assert_eq!(program.to_string(), "let myVar = anotherVar;\nreturn 5;");
}
