use layout_heatmap::encode::{
    assign_key_colors, blend, key_color, spawn_bigram_arrows, thickness, visible, Arrow, Ratio,
    Shade,
};
use layout_heatmap::frequency::{
    get_1_gram_distrib, get_2_gram_distrib, Bigram, BigramTable, Freq, LoadError, UnigramTable,
};
use layout_heatmap::layout::{Key, Layout, NotFound, Point};
use layout_heatmap::screen::Screen;

fn value(num: u128, den: u128) -> f64 {
    num as f64 / den as f64
}

fn rgb(s: Shade) -> (f64, f64, f64) {
    (value(s.r, s.scale), value(s.g, s.scale), value(s.b, s.scale))
}

fn unigrams(text: &str) -> UnigramTable {
    get_1_gram_distrib(text).unwrap()
}

fn bigrams(text: &str) -> BigramTable {
    get_2_gram_distrib(text).unwrap()
}

const SYNTHETIC: &str = "1-gram\na\t10\nb\t5\n2-gram\nab\t8\nba\t1\naa\t3\n3-gram\nabc\t1\n";

const UPPER: &str = "1-gram\nA\t10\nB\t5\n2-gram\nAB\t8\nBA\t1\nAA\t3\n3-gram\n";

#[test]
fn end_to_end_unigram_normalization() {
    let t = unigrams(SYNTHETIC);
    assert_eq!(t.len(), 2);
    assert_eq!(t.max(), 10);
    assert_eq!(t.get('a'), Some(Freq { count: 10, max: 10 }));
    assert_eq!(t.get('b'), Some(Freq { count: 5, max: 10 }));
    assert_eq!(t.get('c'), None);
}

#[test]
fn end_to_end_bigram_normalization() {
    let t = bigrams(SYNTHETIC);
    assert_eq!(t.len(), 3);
    assert_eq!(t.max(), 8);
    let (b0, d0) = t.record(0);
    let (b1, d1) = t.record(1);
    let (b2, d2) = t.record(2);
    assert_eq!(b0, Bigram { first: 'a', second: 'b' });
    assert_eq!(value(d0.count as u128, d0.max as u128), 1.0);
    assert_eq!(b1, Bigram { first: 'b', second: 'a' });
    assert_eq!(value(d1.count as u128, d1.max as u128), 0.125);
    assert_eq!(b2, Bigram { first: 'a', second: 'a' });
    assert_eq!(value(d2.count as u128, d2.max as u128), 0.375);
}

#[test]
fn end_to_end_arrows_skip_self_pair_and_faint() {
    let t = bigrams(UPPER);
    let arrows = spawn_bigram_arrows(&Layout::qwerty(), &t).unwrap();
    assert_eq!(arrows.len(), 1);
    let a: Arrow = arrows[0];
    assert_eq!(a.from, Key(10));
    assert_eq!(a.to, Key(24));
    assert_eq!(a.thickness, Ratio { num: 160, den: 8 });
    assert_eq!(rgb(a.color), (0.0, 1.0, 0.0));
}

#[test]
fn arrows_fail_on_glyph_missing_from_layout() {
    let t = bigrams(SYNTHETIC);
    assert_eq!(spawn_bigram_arrows(&Layout::qwerty(), &t), Err(NotFound { glyph: 'a' }));
}

#[test]
fn bigram_filter_threshold() {
    let text = "x\n2-gram\nQW\t1000\nER\t200\nTY\t199\nUI\t500\nOO\t900\n3-gram\n";
    let t = bigrams(text);
    let layout = Layout::qwerty();
    let arrows = spawn_bigram_arrows(&layout, &t).unwrap();
    let pairs: Vec<(usize, usize)> = arrows.iter().map(|a| (a.from.0, a.to.0)).collect();
    assert_eq!(pairs, vec![(0, 1), (2, 3), (6, 7)]);
    let thick: Vec<f64> = arrows.iter().map(|a| value(a.thickness.num, a.thickness.den)).collect();
    assert_eq!(thick, vec![20.0, 4.0, 10.0]);
}

#[test]
fn visibility_edges() {
    let ab = Bigram { first: 'A', second: 'B' };
    let aa = Bigram { first: 'A', second: 'A' };
    assert!(visible(ab, Freq { count: 200, max: 1000 }));
    assert!(!visible(ab, Freq { count: 199, max: 1000 }));
    assert!(visible(ab, Freq { count: 500, max: 1000 }));
    assert!(!visible(aa, Freq { count: 1000, max: 1000 }));
    assert!(!visible(ab, Freq { count: 0, max: 1000 }));
}

#[test]
fn later_record_overrides_earlier() {
    let t = unigrams("x\nA\t3\nA\t5\n2-gram\n");
    assert_eq!(t.get('A'), Some(Freq { count: 5, max: 5 }));
    let b = bigrams("2-gram\nAB\t9\nAB\t1\nCD\t10\n3-gram");
    let arrows = spawn_bigram_arrows(&Layout::qwerty(), &b).unwrap();
    assert_eq!(arrows.len(), 1);
    assert_eq!(arrows[0].from, Key(22));
}

#[test]
fn key_color_interpolation() {
    let t = unigrams("x\nA\t0\nB\t2\nC\t1\n2-gram\n");
    assert_eq!(rgb(key_color(&t, 'A')), (1.0, 1.0, 1.0));
    assert_eq!(rgb(key_color(&t, 'B')), (1.0, 0.0, 0.0));
    assert_eq!(rgb(key_color(&t, 'C')), (1.0, 0.5, 0.5));
    assert_eq!(key_color(&t, 'D'), Shade { r: 2, g: 2, b: 2, scale: 4 });
}

#[test]
fn blend_exact_values() {
    let white = Shade { r: 4, g: 4, b: 4, scale: 4 };
    let red = Shade { r: 4, g: 0, b: 0, scale: 4 };
    let s = blend(white, red, Freq { count: 1, max: 4 });
    assert_eq!(s, Shade { r: 16, g: 12, b: 12, scale: 16 });
    assert_eq!(thickness(Freq { count: 3, max: 4 }), Ratio { num: 60, den: 4 });
}

#[test]
fn key_colors_follow_layout() {
    let t = unigrams(UPPER);
    let colors = assign_key_colors(&Layout::qwerty(), &t);
    assert_eq!(colors.len(), 30);
    assert_eq!(rgb(colors[10]), (1.0, 0.0, 0.0));
    assert_eq!(rgb(colors[24]), (1.0, 0.5, 0.5));
    assert_eq!(colors[0], Shade { r: 2, g: 2, b: 2, scale: 4 });
    let colors = assign_key_colors(&Layout::dvorak(), &t);
    assert_eq!(rgb(colors[10]), (1.0, 0.0, 0.0));
}

#[test]
fn slot_round_trip_all_layouts() {
    for layout in [Layout::qwerty(), Layout::dvorak(), Layout::colemak(), Layout::colemak_dh()] {
        for s in 0..30 {
            assert_eq!(layout.find(layout.ch(s)), Ok(Key(s)));
            assert_eq!(layout.s(s).chars().next(), Some(layout.ch(s)));
        }
    }
}

#[test]
fn layout_lookups() {
    let q = Layout::qwerty();
    assert_eq!(q.ch(0), 'Q');
    assert_eq!(q.s(19), ";");
    assert_eq!(q.find('/'), Ok(Key(29)));
    assert_eq!(q.find('a'), Err(NotFound { glyph: 'a' }));
    assert_eq!(Layout::dvorak().ch(0), '/');
    assert_eq!(Layout::colemak().ch(4), 'G');
    assert_eq!(Layout::colemak_dh().ch(4), 'B');
    assert!(Layout::from_selection(0).is_none());
    assert!(Layout::from_selection(5).is_none());
    assert_eq!(Layout::from_selection(2).unwrap().ch(0), '/');
}

#[test]
fn key_positions() {
    assert_eq!(Key::new(0).pos(), Point { x: -495, y: 110 });
    assert_eq!(Key::new(10).pos(), Point { x: -495, y: 0 });
    assert_eq!(Key::new(29).pos(), Point { x: 495, y: -110 });
    assert_eq!(Key::new(24).slot(), 24);
}

#[test]
fn seed_follows_geometry() {
    let t = bigrams(UPPER);
    let arrows = spawn_bigram_arrows(&Layout::qwerty(), &t).unwrap();
    assert_eq!(arrows[0].seed_base(), -660);
    assert_eq!(arrows[0].seed_base(), arrows[0].seed_base());
}

#[test]
fn switch_back_restores_view() {
    let u = unigrams(UPPER);
    let b = bigrams(UPPER);
    let mut screen = Screen::new();
    assert!(screen.layout().is_none());
    assert!(screen.key_colors().is_empty());
    screen.on_layout_selected(Layout::qwerty(), &u, &b).unwrap();
    let colors = screen.key_colors().clone();
    let arrows = screen.arrow_list().clone();
    screen.on_layout_selected(Layout::dvorak(), &u, &b).unwrap();
    assert_ne!(screen.key_colors(), &colors);
    screen.on_layout_selected(Layout::qwerty(), &u, &b).unwrap();
    assert_eq!(screen.key_colors(), &colors);
    assert_eq!(screen.arrow_list(), &arrows);
}

#[test]
fn tick_takes_latest_selection() {
    let u = unigrams(UPPER);
    let b = bigrams(UPPER);
    let mut screen = Screen::new();
    screen.tick(&vec![1, 2], &u, &b).unwrap();
    assert_eq!(screen.layout().unwrap().ch(0), '/');
    screen.tick(&vec![], &u, &b).unwrap();
    assert_eq!(screen.layout().unwrap().ch(0), '/');
    screen.tick(&vec![9], &u, &b).unwrap();
    assert_eq!(screen.layout().unwrap().ch(0), '/');
    screen.tick(&vec![3], &u, &b).unwrap();
    assert_eq!(screen.layout().unwrap().ch(4), 'G');
}

#[test]
fn failed_switch_leaves_screen() {
    let u = unigrams(SYNTHETIC);
    let b = bigrams(SYNTHETIC);
    let mut screen = Screen::new();
    assert_eq!(screen.on_layout_selected(Layout::qwerty(), &u, &b), Err(NotFound { glyph: 'a' }));
    assert!(screen.layout().is_none());
    assert!(screen.arrow_list().is_empty());
}

#[test]
fn load_errors() {
    assert_eq!(get_1_gram_distrib("x\nA\n2-gram").err(), Some(LoadError::MissingCount(1)));
    assert_eq!(get_1_gram_distrib("x\n\t5\n2-gram").err(), Some(LoadError::MissingKey(1)));
    assert_eq!(get_1_gram_distrib("x\nA\tx\n2-gram").err(), Some(LoadError::BadCount(1)));
    assert_eq!(get_1_gram_distrib("x\nA\t\n2-gram").err(), Some(LoadError::BadCount(1)));
    assert_eq!(get_1_gram_distrib("x\nA\t+\n2-gram").err(), Some(LoadError::BadCount(1)));
    assert_eq!(get_1_gram_distrib("x\nA\t-1\n2-gram").err(), Some(LoadError::BadCount(1)));
    assert_eq!(
        get_1_gram_distrib("x\nA\t18446744073709551616\n2-gram").err(),
        Some(LoadError::BadCount(1))
    );
    assert_eq!(get_1_gram_distrib("x\nA\t0\nB\t0\n2-gram").err(), Some(LoadError::ZeroMaximum));
    assert_eq!(get_1_gram_distrib("x\nA\t1\n").err(), Some(LoadError::MissingKey(2)));
    assert_eq!(get_2_gram_distrib("2-gram\nA\t5\n3-gram").err(), Some(LoadError::MissingKey(1)));
    assert_eq!(get_2_gram_distrib("2-gram\nAB\t5").unwrap().len(), 1);
}

#[test]
fn count_forms() {
    let t = unigrams("x\nA\t+7\textra\nB\t18446744073709551615\n2-gram");
    assert_eq!(t.get('A'), Some(Freq { count: 7, max: 18446744073709551615 }));
    assert_eq!(t.max(), 18446744073709551615);
    let k = key_color(&t, 'B');
    assert_eq!(rgb(k), (1.0, 0.0, 0.0));
}

#[test]
fn empty_sections() {
    let t = unigrams("only a header");
    assert_eq!(t.len(), 0);
    assert_eq!(t.get('A'), None);
    let b = bigrams("x\nA\t1\n");
    assert_eq!(b.len(), 0);
    assert!(spawn_bigram_arrows(&Layout::qwerty(), &b).unwrap().is_empty());
    let b = bigrams("x\n2-gram\n3-gram\n");
    assert_eq!(b.len(), 0);
}

#[test]
fn normalized_values_in_unit_range() {
    let t = bigrams(SYNTHETIC);
    let mut saw_one = false;
    for i in 0..t.len() {
        let (_, d) = t.record(i);
        assert!(d.count <= d.max);
        saw_one |= d.count == d.max;
    }
    assert!(saw_one);
}

#[test]
fn built_in_layouts_share_alphabet() {
    let glyphs = |l: Layout| {
        let mut v: Vec<char> = (0..30).map(|i| l.ch(i)).collect();
        v.sort();
        v
    };
    let q = glyphs(Layout::qwerty());
    assert_eq!(glyphs(Layout::dvorak()), q);
    assert_eq!(glyphs(Layout::colemak()), q);
    assert_eq!(glyphs(Layout::colemak_dh()), q);
    assert_eq!(Layout::dvorak().find('/'), Ok(Key(0)));
}

#[test]
fn slash_bigram_draws_on_every_layout() {
    let b = bigrams("x\n2-gram\n/A\t4\n3-gram\n");
    for layout in [Layout::qwerty(), Layout::dvorak(), Layout::colemak(), Layout::colemak_dh()] {
        let arrows = spawn_bigram_arrows(&layout, &b).unwrap();
        assert_eq!(arrows.len(), 1);
        assert_eq!(arrows[0].from, layout.find('/').unwrap());
    }
}

#[test]
fn ties_at_maximum_all_normalize_to_one() {
    let t = unigrams("x\nA\t5\nB\t5\nC\t1\n2-gram\n");
    assert_eq!(t.get('A'), Some(Freq { count: 5, max: 5 }));
    assert_eq!(t.get('B'), Some(Freq { count: 5, max: 5 }));
    assert_eq!(t.get('C'), Some(Freq { count: 1, max: 5 }));
}
