use autograder_rust::canvas::{enrolled_user_id, CanvasMapper, Enrollment, EnrollmentUser};

#[test]
fn mapper_lookup_finds_first_match() {
    let mapper = CanvasMapper::from_pairs(vec![
        ("alice".to_string(), "a123".to_string()),
        ("bob".to_string(), "b456".to_string()),
        ("alice".to_string(), "dup".to_string()),
    ]);
    assert_eq!(mapper.lookup("alice"), Some("a123".to_string()));
    assert_eq!(mapper.lookup("bob"), Some("b456".to_string()));
    assert_eq!(mapper.lookup("carol"), None);
}

#[test]
fn enrollment_lookup_maps_login_to_user_id() {
    let rows = vec![
        Enrollment { user: EnrollmentUser { login_id: "a123".into() }, user_id: 101 },
        Enrollment { user: EnrollmentUser { login_id: "b456".into() }, user_id: 102 },
    ];
    assert_eq!(enrolled_user_id(&rows, "a123"), Some(101));
    assert_eq!(enrolled_user_id(&rows, "b456"), Some(102));
    assert_eq!(enrolled_user_id(&rows, "zzz"), None);
}
