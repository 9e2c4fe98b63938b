use classvm::descriptor::{args, info, parse_descriptor, parse_region, type_from, types_from, Type};

#[test]
fn test_args() {
    assert_eq!(args("()V"), vec![]);
    assert_eq!(args("(VI)V"), vec![Type::Void, Type::Int]);
    assert_eq!(
        args("(VLjava/lang/String;I)V"),
        vec![
            Type::Void,
            Type::Object("java/lang/String".to_string()),
            Type::Int
        ]
    );
    assert_eq!(
        args("([Ljava/lang/String;)V"),
        vec![Type::Array(
            1,
            Box::new(Type::Object("java/lang/String".to_string()))
        )]
    )
}

#[test]
fn info_splits_return_and_arguments() {
    let d = info("([Ljava/lang/String;)V");
    assert_eq!(d.ret, Type::Void);
    assert_eq!(
        d.args,
        vec![Type::Array(
            1,
            Box::new(Type::Object("java/lang/String".to_string()))
        )]
    );
    let d2 = info("(IJ)I");
    assert_eq!(d2.ret, Type::Int);
    assert_eq!(d2.args, vec![Type::Int, Type::Long]);
}

#[test]
fn types_from_reads_every_kind() {
    assert_eq!(
        types_from("IJZV"),
        vec![Type::Int, Type::Long, Type::Bool, Type::Void]
    );
    assert_eq!(
        types_from("[[I"),
        vec![Type::Array(2, Box::new(Type::Int))]
    );
    assert_eq!(type_from("JI"), Type::Long);
}

#[test]
fn malformed_descriptors_are_rejected() {
    assert!(parse_descriptor("(Q)V").is_none());
    assert!(parse_descriptor("no parens").is_none());
    assert!(parse_descriptor("(I)").is_none());
    assert!(parse_region("Lunterminated").is_none());
    assert!(parse_region("[").is_none());
    assert!(parse_descriptor("(I)I").is_some());
}
