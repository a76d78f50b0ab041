use rainworld_level::lingo_dsl::{Color, Point, Rect};

#[test]
fn point_parses_two_integers() {
    assert_eq!(Point::parse("point(20, 30)"), Some(Point { fst: 20, snd: 30 }));
    assert_eq!(Point::parse("point(8, -1)"), Some(Point { fst: 8, snd: -1 }));
    assert_eq!(Point::parse("point(+3,4)"), Some(Point { fst: 3, snd: 4 }));
}

#[test]
fn point_with_wrong_arity_fails() {
    assert_eq!(Point::parse("point(20, 30, 40)"), None);
    assert_eq!(Point::parse("point(20)"), None);
    assert_eq!(Point::parse("point()"), None);
}

#[test]
fn malformed_literals_fail() {
    assert_eq!(Point::parse("point(20, 30"), None);
    assert_eq!(Point::parse("pont(20, 30)"), None);
    assert_eq!(Point::parse("point(2 0, 30)"), None);
    assert_eq!(Point::parse("point(-, 30)"), None);
    assert_eq!(Point::parse("point(, 30)"), None);
    assert_eq!(Point::parse("point(99999999999999999999, 1)"), None);
    assert_eq!(Point::parse(""), None);
}

#[test]
fn rect_accepts_negative_components() {
    assert_eq!(
        Rect::parse("rect(1000, 1000, -1000, -1000)"),
        Some(Rect { top: 1000, left: 1000, bottom: -1000, right: -1000 })
    );
    assert_eq!(Rect::parse("rect(0, 0, 1040, 800)"), Some(Rect { top: 0, left: 0, bottom: 1040, right: 800 }));
    assert_eq!(Rect::parse("rect(0, 0, 1040)"), None);
}

#[test]
fn color_components_are_bytes() {
    assert_eq!(Color::parse("color( 255, 0, 0 )"), Some(Color { red: 255, green: 0, blue: 0 }));
    assert_eq!(Color::parse("color(256, 0, 0)"), None);
    assert_eq!(Color::parse("color(-1, 0, 0)"), None);
    assert_eq!(Color::parse("color(-0, 0, 0)"), None);
    assert_eq!(Color::parse("color(1, 2)"), None);
}

#[test]
fn whitespace_around_components_is_ignored() {
    assert_eq!(Point::parse("point(\t5 ,\u{a0}7\n)"), Some(Point { fst: 5, snd: 7 }));
    assert_eq!(Point::parse("point( 5 , 7 )"), Some(Point { fst: 5, snd: 7 }));
}
