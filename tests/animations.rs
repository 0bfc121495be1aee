use cell_colony::animations::{AnimationConfig, AnimationStyle, ColorStyle, ThinkingAnimation};
use cell_colony::ascii_art::{get_ascii_template, list_templates};

#[test]
fn test_animation_styles() {
    let styles = vec![
        AnimationStyle::Classic,
        AnimationStyle::Braille,
        AnimationStyle::Matrix,
        AnimationStyle::Neural,
        AnimationStyle::Binary,
        AnimationStyle::Quantum,
        AnimationStyle::Circuit,
        AnimationStyle::DNA,
    ];

    for style in styles {
        let config = AnimationConfig {
            style,
            ..Default::default()
        };
        let animation = ThinkingAnimation::new(config);
        assert!(!animation.frames.is_empty());
    }
}

#[test]
fn test_color_styles() {
    let colors = vec![
        ColorStyle::White,
        ColorStyle::Cyan,
        ColorStyle::CyanGradient,
        ColorStyle::Plain,
    ];

    for color in colors {
        let config = AnimationConfig {
            color,
            ..Default::default()
        };
        let animation = ThinkingAnimation::new(config);
        assert!(!animation.color_map.is_empty());
    }
}

#[test]
fn frame_counts_and_widths() {
    let a = ThinkingAnimation::new(AnimationConfig::with_style(AnimationStyle::Braille));
    assert_eq!(a.frames.len(), 23);
    let m = ThinkingAnimation::new(AnimationConfig::with_style(AnimationStyle::Matrix));
    assert_eq!(m.frames.len(), 10);
    for f in &m.frames {
        assert_eq!(f.chars().count(), 20);
        assert!(f.chars().all(|c| c == '0' || c == '1'));
    }
    let q = ThinkingAnimation::new(AnimationConfig::with_style(AnimationStyle::Quantum));
    assert_eq!(q.frames[0], "⟩".repeat(10));
    let n = ThinkingAnimation::new(AnimationConfig::with_style(AnimationStyle::Neural));
    assert_eq!(n.frames.len(), 8);
    assert!(n.frames[1].starts_with("○="));
}

#[test]
fn gradient_runs_dark_to_light() {
    let map = ThinkingAnimation::generate_color_map(ColorStyle::CyanGradient, 10);
    assert_eq!(map.len(), 10);
    assert_eq!(map[0], "\x1b[38;5;23m");
    assert_eq!(map[9], "\x1b[38;5;51m");
    let plain = ThinkingAnimation::generate_color_map(ColorStyle::Plain, 3);
    assert!(plain.iter().all(|c| c.is_empty()));
}

#[test]
fn templates_by_name() {
    assert!(get_ascii_template("tree").unwrap().contains("[Root]"));
    assert!(get_ascii_template("chain").unwrap().contains("Evolution"));
    assert!(get_ascii_template("unknown").is_none());
    let names = list_templates();
    assert_eq!(names.len(), 5);
    for n in names {
        assert!(get_ascii_template(n).is_some());
    }
}
