use checksmith::eval::score::{taper, Score, TOTAL_PHASE};

#[test]
fn taper_interpolates() {
    let s = Score::new(100, 200);
    assert_eq!(taper(s, TOTAL_PHASE), 100); // full middlegame -> mg
    assert_eq!(taper(s, 0), 200); // pure endgame -> eg
    assert_eq!(taper(s, TOTAL_PHASE / 2), 150); // halfway -> blend
}

#[test]
fn arithmetic() {
    let a = Score::new(10, 20);
    let b = Score::new(3, 4);
    assert_eq!(a + b, Score::new(13, 24));
    assert_eq!(a - b, Score::new(7, 16));
    assert_eq!(b.times(5), Score::new(15, 20));
    assert_eq!(-a, Score::new(-10, -20));
}
