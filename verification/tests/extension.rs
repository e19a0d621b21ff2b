use heirloom::extension::validate_custom_op_name;
use heirloom::{CustomUnaryOp, CustomUnaryRegistry, TensorError};

fn forward(x: f64) -> f64 {
    x * 2.0
}

fn backward(x: f64) -> f64 {
    x
}

type Op = CustomUnaryOp<fn(f64) -> f64, fn(f64) -> f64>;

fn op(name: &'static str) -> Op {
    CustomUnaryOp::new(name, forward as fn(f64) -> f64, backward as fn(f64) -> f64).unwrap()
}

#[test]
fn custom_op_names_are_checked() {
    assert!(validate_custom_op_name("my_ops::scale-2.v1").is_ok());
    assert!(matches!(validate_custom_op_name(""), Err(TensorError::InvalidOperation(_))));
    assert!(validate_custom_op_name(" \t\u{3000}").is_err());
    assert!(validate_custom_op_name("has space").is_err());
    assert!(validate_custom_op_name("ünïcode").is_err());
    assert!(validate_custom_op_name(&"a".repeat(128)).is_ok());
    assert!(validate_custom_op_name(&"a".repeat(129)).is_err());
}

#[test]
fn registry_reads_back_registered_ops_and_refuses_duplicates() {
    let mut registry: CustomUnaryRegistry<fn(f64) -> f64, fn(f64) -> f64> = CustomUnaryRegistry::new();
    assert!(registry.is_empty());
    registry.register(op("scale")).unwrap();
    registry.register(op("shift")).unwrap();
    assert!(matches!(registry.register(op("scale")), Err(TensorError::InvalidOperation(_))));
    assert_eq!(registry.len(), 2);
    let found = registry.get("scale").unwrap();
    assert_eq!(found.name(), "scale");
    assert_eq!((found.forward_fn())(3.0), 6.0);
    assert!(registry.get("missing").is_none());
    let names: Vec<&str> = registry.operators().iter().map(|o| o.name()).collect();
    assert_eq!(names, vec!["scale", "shift"]);
    assert!(CustomUnaryOp::new("bad name", forward as fn(f64) -> f64, backward as fn(f64) -> f64).is_err());
}
