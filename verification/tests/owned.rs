use jpv_lib::owned::{carry, ensure_no_lifetimes, strip_lifetimes, variable, Carry, Fault, Param, Shape};

fn parts(list: Vec<Shape>) -> Shape {
    let mut all = Shape::Opaque;
    for shape in list.into_iter().rev() {
        all = Shape::Parts(Box::new(shape), Box::new(all));
    }
    all
}

#[test]
fn lifetimes_leave_the_parameters() {
    let params = vec![Param::Lifetime, Param::Type, Param::Lifetime, Param::Const, Param::Type];
    assert_eq!(strip_lifetimes(&params), vec![1, 3, 4]);
    assert_eq!(strip_lifetimes(&vec![Param::Lifetime]), Vec::<usize>::new());
    assert_eq!(strip_lifetimes(&Vec::new()), Vec::<usize>::new());
}

#[test]
fn a_type_without_references_has_no_fault() {
    assert!(ensure_no_lifetimes(&Shape::Opaque, &Vec::new()).is_empty());
    let nested = Shape::Wrap(Box::new(parts(vec![Shape::Opaque, Shape::Wrap(Box::new(Shape::Opaque))])));
    assert!(ensure_no_lifetimes(&nested, &Vec::new()).is_empty());
}

#[test]
fn references_are_faults_in_their_order() {
    // (&'a str, [&u8], for<'b> fn(&'b u8, &'a u8, &u8), &'b u8)
    let shape = parts(vec![
        Shape::Reference(Some("a".to_string()), 0),
        Shape::Wrap(Box::new(Shape::Reference(None, 1))),
        Shape::Function(
            vec!["b".to_string()],
            Box::new(parts(vec![
                Shape::Reference(Some("b".to_string()), 2),
                Shape::Reference(Some("a".to_string()), 3),
                Shape::Reference(None, 4),
            ])),
        ),
        Shape::Reference(Some("b".to_string()), 5),
    ]);
    assert_eq!(
        ensure_no_lifetimes(&shape, &Vec::new()),
        vec![
            Fault { at: 0, anonymous: false },
            Fault { at: 1, anonymous: true },
            Fault { at: 3, anonymous: false },
            Fault { at: 4, anonymous: true },
            Fault { at: 5, anonymous: false },
        ]
    );
}

#[test]
fn function_pointers_bind_for_what_is_inside_them() {
    let inner = Shape::Function(
        vec!["c".to_string()],
        Box::new(parts(vec![
            Shape::Reference(Some("b".to_string()), 0),
            Shape::Reference(Some("c".to_string()), 1),
            Shape::Reference(Some("d".to_string()), 2),
        ])),
    );
    let outer = Shape::Function(vec!["a".to_string(), "b".to_string()], Box::new(inner));
    assert_eq!(ensure_no_lifetimes(&outer, &Vec::new()), vec![Fault { at: 2, anonymous: false }]);
}

#[test]
fn how_a_field_is_carried_over() {
    assert_eq!(carry(true, false), Carry::Copy);
    assert_eq!(carry(true, true), Carry::Copy);
    assert_eq!(carry(false, true), Carry::Named);
    assert_eq!(carry(false, false), Carry::Clone);
}

#[test]
fn positions_of_a_tuple_have_names() {
    assert_eq!(variable(0), "f0");
    assert_eq!(variable(7), "f7");
    assert_eq!(variable(12), "f12");
    assert_eq!(variable(u32::MAX), "f4294967295");
}

#[test]
fn lifetimes_that_are_to_be_ignored_are_no_faults() {
    let shape = parts(vec![
        Shape::Reference(Some("a".to_string()), 0),
        Shape::Reference(Some("b".to_string()), 1),
        Shape::Reference(None, 2),
        Shape::Function(vec!["c".to_string()], Box::new(Shape::Reference(Some("a".to_string()), 3))),
    ]);
    assert_eq!(
        ensure_no_lifetimes(&shape, &vec!["a".to_string()]),
        vec![Fault { at: 1, anonymous: false }, Fault { at: 2, anonymous: true }]
    );
    assert_eq!(
        ensure_no_lifetimes(&shape, &vec!["b".to_string(), "x".to_string()]),
        vec![
            Fault { at: 0, anonymous: false },
            Fault { at: 2, anonymous: true },
            Fault { at: 3, anonymous: false },
        ]
    );
}
