use gate::{Data, Program};

fn num(x: f64) -> Data {
    Data::Number(x.to_bits())
}

#[test]
fn test_assign_overwrites_nearest_binding() {
    // Assignment overwrites the innermost existing binding, so a write
    // from an inner frame to an outer name survives the frame.
    let mut p = Program::new();
    p.set_var("x", num(1.0));
    p.new_scope();
    p.set_var("x", num(2.0));
    p.pop_scope();
    assert_eq!(p.var("x"), Some(num(2.0)));
}

#[test]
fn test_fresh_binding_stays_in_inner_frame() {
    // A name first bound inside a frame vanishes when the frame is popped.
    let mut p = Program::new();
    p.new_scope();
    p.set_var("y", num(1.0));
    assert_eq!(p.var("y"), Some(num(1.0)));
    p.pop_scope();
    assert_eq!(p.var("y"), None);
}

#[test]
fn test_lookup_innermost_first() {
    // Lookup returns the innermost binding; reading never unshadows.
    let mut p = Program::new();
    p.set_var("x", num(1.0));
    p.new_scope();
    // x still resolves to the outer binding from the inner frame.
    assert_eq!(p.var("x"), Some(num(1.0)));
    p.pop_scope();
    assert_eq!(p.var("x"), Some(num(1.0)));
}
