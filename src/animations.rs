//! Frames and colors of the "thinking" animation shown while the colony
//! waits on remote calls.
use vstd::prelude::*;
use crate::outside::random_below;

verus! {

broadcast use vstd::string::group_string_axioms;

#[derive(Clone, Debug)]
pub enum AnimationStyle {
    Classic,
    Braille,
    Matrix,
    Neural,
    Binary,
    Quantum,
    Circuit,
    DNA,
    Custom(Vec<String>),
}

#[derive(Clone, Copy, Debug, PartialEq, Eq, Structural)]
pub enum ColorStyle {
    White,
    Cyan,
    CyanGradient,
    Plain,
}

/// How an animation looks and runs.
#[derive(Clone, Debug)]
pub struct AnimationConfig {
    pub style: AnimationStyle,
    pub color: ColorStyle,
    pub message: String,
    /// Delay between frames, in milliseconds.
    pub delay_ms: u64,
    /// Width of generated frames, in symbols.
    pub width: usize,
    /// Frames shown by one run.
    pub frame_count: usize,
}

impl Default for AnimationConfig {
    /// Classic spinner in cyan, "Processing", 100 ms per frame, width 20,
    /// 50 frames.
    fn default() -> (r: AnimationConfig)
        ensures
            r.style is Classic,
            r.color == ColorStyle::Cyan,
            r.message@ == "Processing"@,
            r.delay_ms == 100,
            r.width == 20,
            r.frame_count == 50,
    {
        AnimationConfig {
            style: AnimationStyle::Classic,
            color: ColorStyle::Cyan,
            message: "Processing".to_string(),
            delay_ms: 100,
            width: 20,
            frame_count: 50,
        }
    }
}

impl AnimationConfig {
    /// The default configuration with another style.
    pub fn with_style(style: AnimationStyle) -> (r: AnimationConfig)
        ensures
            r.style == style,
            r.color == ColorStyle::Cyan,
            r.width == 20,
            r.frame_count == 50,
    {
        AnimationConfig { style, ..AnimationConfig::default() }
    }

    /// The default configuration with another color.
    pub fn with_color(color: ColorStyle) -> (r: AnimationConfig)
        ensures
            r.style is Classic,
            r.color == color,
            r.width == 20,
            r.frame_count == 50,
    {
        AnimationConfig { color, ..AnimationConfig::default() }
    }
}

/// A ready animation: its frames and the color of each frame.
pub struct ThinkingAnimation {
    pub frames: Vec<String>,
    pub config: AnimationConfig,
    pub color_map: Vec<String>,
}

/// Number of frames that a style generates.
pub open spec fn frame_total(style: AnimationStyle) -> int {
    match style {
        AnimationStyle::Classic => 10,
        AnimationStyle::Braille => 23,
        AnimationStyle::Matrix => 10,
        AnimationStyle::Neural => 8,
        AnimationStyle::Binary => 8,
        AnimationStyle::Quantum => 10,
        AnimationStyle::Circuit => 10,
        AnimationStyle::DNA => 8,
        AnimationStyle::Custom(v) => v@.len() as int,
    }
}

/// The frames of the classic spinner.
pub open spec fn classic_frames() -> Seq<Seq<char>> {
    seq!["⠋"@, "⠙"@, "⠹"@, "⠸"@, "⠼"@, "⠴"@, "⠦"@, "⠧"@, "⠇"@, "⠏"@]
}

/// Escape code of frame `i` of `n` under a color style: one color for
/// all frames, a five-step cyan gradient from dark to light, or none.
pub open spec fn color_code(c: ColorStyle, i: int, n: int) -> Seq<char> {
    match c {
        ColorStyle::White => "\x1b[37m"@,
        ColorStyle::Cyan => "\x1b[36m"@,
        ColorStyle::CyanGradient => gradient_code(i * 5 / n),
        ColorStyle::Plain => Seq::empty(),
    }
}

pub open spec fn gradient_code(k: int) -> Seq<char> {
    if k == 0 {
        "\x1b[38;5;23m"@
    } else if k == 1 {
        "\x1b[38;5;30m"@
    } else if k == 2 {
        "\x1b[38;5;37m"@
    } else if k == 3 {
        "\x1b[38;5;44m"@
    } else {
        "\x1b[38;5;51m"@
    }
}

fn gradient_text(k: usize) -> (r: &'static str)
    ensures
        r@ == gradient_code(k as int),
{
    if k == 0 {
        "\x1b[38;5;23m"
    } else if k == 1 {
        "\x1b[38;5;30m"
    } else if k == 2 {
        "\x1b[38;5;37m"
    } else if k == 3 {
        "\x1b[38;5;44m"
    } else {
        "\x1b[38;5;51m"
    }
}

fn color_text(c: ColorStyle, i: usize, n: usize) -> (r: String)
    requires
        i < n,
    ensures
        r@ == color_code(c, i as int, n as int),
{
    match c {
        ColorStyle::White => "\x1b[37m".to_string(),
        ColorStyle::Cyan => "\x1b[36m".to_string(),
        ColorStyle::CyanGradient => {
            assert((i * 5) / (n as int) < 5) by (nonlinear_arith)
                requires
                    i < n,
            ;
            gradient_text(((i as u128 * 5) / n as u128) as usize).to_string()
        },
        ColorStyle::Plain => String::new(),
    }
}

/// A frame of `count` copies of `piece`.
fn repeated(piece: &str, count: usize) -> (r: String)
    ensures
        r@.len() == count * piece@.len(),
{
    let mut s = String::new();
    let mut i: usize = 0;
    while i < count
        invariant
            i <= count,
            s@.len() == i * piece@.len(),
        decreases count - i,
    {
        s.append(piece);
        assert((i + 1) * piece@.len() == i * piece@.len() + piece@.len()) by (nonlinear_arith);
        i = i + 1;
    }
    s
}

/// Every symbol of `symbols` is `len` characters long.
pub open spec fn symbols_of_len(symbols: Seq<&'static str>, len: int) -> bool {
    forall|k: int| 0 <= k < symbols.len() ==> (#[trigger] symbols[k])@.len() == len
}

/// A frame of `count` symbols drawn at random from `symbols`.
fn random_frame(symbols: &Vec<&'static str>, count: usize, len: Ghost<int>) -> (r: String)
    requires
        symbols@.len() > 0,
        symbols_of_len(symbols@, len@),
        len@ >= 0,
    ensures
        r@.len() == count * len@,
{
    let mut s = String::new();
    let mut i: usize = 0;
    while i < count
        invariant
            i <= count,
            symbols@.len() > 0,
            symbols_of_len(symbols@, len@),
            s@.len() == i * len@,
        decreases count - i,
    {
        let k = random_below(symbols.len() as u64) as usize;
        s.append(symbols[k]);
        assert((i + 1) * len@ == i * len@ + len@) by (nonlinear_arith);
        i = i + 1;
    }
    s
}

fn frames_of_symbols(symbols: &Vec<&'static str>) -> (r: Vec<String>)
    ensures
        r@.len() == symbols@.len(),
        forall|k: int| 0 <= k < r@.len() ==> (#[trigger] r@[k])@ == symbols@[k]@,
{
    let mut out: Vec<String> = Vec::new();
    let mut i: usize = 0;
    while i < symbols.len()
        invariant
            i <= symbols.len(),
            out@.len() == i,
            forall|k: int| 0 <= k < i ==> (#[trigger] out@[k])@ == symbols@[k]@,
        decreases symbols.len() - i,
    {
        out.push(symbols[i].to_string());
        i = i + 1;
    }
    out
}

fn random_frames(symbols: &Vec<&'static str>, frames: usize, count: usize, len: Ghost<int>) -> (r: Vec<String>)
    requires
        symbols@.len() > 0,
        symbols_of_len(symbols@, len@),
        len@ >= 0,
    ensures
        r@.len() == frames,
        forall|k: int| 0 <= k < frames ==> (#[trigger] r@[k])@.len() == count * len@,
{
    let mut out: Vec<String> = Vec::new();
    let mut i: usize = 0;
    while i < frames
        invariant
            i <= frames,
            out@.len() == i,
            symbols@.len() > 0,
            symbols_of_len(symbols@, len@),
            len@ >= 0,
            forall|k: int| 0 <= k < i ==> (#[trigger] out@[k])@.len() == count * len@,
        decreases frames - i,
    {
        out.push(random_frame(symbols, count, len));
        i = i + 1;
    }
    out
}

impl ThinkingAnimation {
    /// An animation with the frames of `config`'s style and one color per
    /// frame.
    pub fn new(config: AnimationConfig) -> (r: ThinkingAnimation)
        ensures
            r.frames@.len() == frame_total(config.style),
            config.style is Classic ==> forall|k: int|
                0 <= k < r.frames@.len() ==> (#[trigger] r.frames@[k])@ == classic_frames()[k],
            config.style matches AnimationStyle::Custom(v) ==> forall|k: int|
                0 <= k < r.frames@.len() ==> (#[trigger] r.frames@[k])@ == v@[k]@,
            (config.style is Matrix || config.style is Binary || config.style is Neural
                || config.style is Circuit) ==> forall|k: int|
                0 <= k < r.frames@.len() ==> (#[trigger] r.frames@[k])@.len() == config.width,
            r.color_map@.len() == r.frames@.len(),
            forall|i: int|
                0 <= i < r.color_map@.len() ==> (#[trigger] r.color_map@[i])@ == color_code(
                    config.color,
                    i,
                    r.frames@.len() as int,
                ),
            r.config == config,
    {
        let frames = Self::generate_frames(&config.style, config.width);
        let color_map = Self::generate_color_map(config.color, frames.len());
        ThinkingAnimation { frames, config, color_map }
    }

    /// The frames of a style, `width` symbols wide where the style draws
    /// them.
    pub fn generate_frames(style: &AnimationStyle, width: usize) -> (r: Vec<String>)
        ensures
            r@.len() == frame_total(*style),
            *style is Classic ==> forall|k: int| 0 <= k < r@.len() ==> (#[trigger] r@[k])@ == classic_frames()[k],
            (*style is Matrix || *style is Binary || *style is Neural || *style is Circuit) ==> forall|k: int|
                0 <= k < r@.len() ==> (#[trigger] r@[k])@.len() == width,
            *style is DNA ==> forall|k: int| 0 <= k < r@.len() ==> (#[trigger] r@[k])@.len() == 2 * (width / 2),
            *style is Quantum ==> forall|k: int| 0 <= k < r@.len() ==> (#[trigger] r@[k])@.len() == width / 2,
            style matches AnimationStyle::Custom(v) ==> forall|k: int|
                0 <= k < r@.len() ==> (#[trigger] r@[k])@ == v@[k]@,
    {
        match style {
            AnimationStyle::Classic => frames_of_symbols(
                &vec!["⠋", "⠙", "⠹", "⠸", "⠼", "⠴", "⠦", "⠧", "⠇", "⠏"],
            ),
            AnimationStyle::Braille => frames_of_symbols(
                &vec![
                    "⠁", "⠂", "⠄", "⠆", "⠈", "⠐", "⠠", "⡀", "⢀", "⣀", "⣁", "⣂", "⣄", "⣆", "⣈", "⣐", "⣠", "⣰", "⣲", "⣴", "⣶", "⣾", "⣿",
                ],
            ),
            AnimationStyle::Matrix => {
                let symbols = vec!["1", "0"];
                proof {
                    reveal_strlit("1");
                    reveal_strlit("0");
                }
                assert(symbols_of_len(symbols@, 1));
                random_frames(&symbols, 10, width, Ghost(1))
            },
            AnimationStyle::Neural => {
                let neurons = vec!["○", "◎", "●", "◉"];
                let connections = vec!["-", "=", "≡", "≣"];
                proof {
                    reveal_strlit("○");
                    reveal_strlit("◎");
                    reveal_strlit("●");
                    reveal_strlit("◉");
                    reveal_strlit("-");
                    reveal_strlit("=");
                    reveal_strlit("≡");
                    reveal_strlit("≣");
                }
                assert(symbols_of_len(neurons@, 1) && symbols_of_len(connections@, 1));
                let mut out: Vec<String> = Vec::new();
                let mut i: usize = 0;
                while i < 8
                    invariant
                        i <= 8,
                        out@.len() == i,
                        neurons@.len() == 4,
                        connections@.len() == 4,
                        symbols_of_len(neurons@, 1) && symbols_of_len(connections@, 1),
                        forall|k: int| 0 <= k < i ==> (#[trigger] out@[k])@.len() == width,
                    decreases 8 - i,
                {
                    let mut frame = String::new();
                    let mut j: usize = 0;
                    while j < width
                        invariant
                            j <= width,
                            neurons@.len() == 4,
                            connections@.len() == 4,
                            symbols_of_len(neurons@, 1) && symbols_of_len(connections@, 1),
                            frame@.len() == j,
                        decreases width - j,
                    {
                        if j % 2 == 0 {
                            frame.append(neurons[j % 4]);
                        } else {
                            frame.append(connections[i % 4]);
                        }
                        j = j + 1;
                    }
                    out.push(frame);
                    i = i + 1;
                }
                out
            },
            AnimationStyle::Binary => {
                let symbols = vec!["1", "0"];
                proof {
                    reveal_strlit("1");
                    reveal_strlit("0");
                }
                assert(symbols_of_len(symbols@, 1));
                random_frames(&symbols, 8, width, Ghost(1))
            },
            AnimationStyle::Quantum => {
                let symbols = vec!["⟩", "⟨", "⟷", "⟶", "⟵", "⟺", "⟹", "⟸", "⟿", "⟾"];
                proof {
                    reveal_strlit("⟩");
                    reveal_strlit("⟨");
                    reveal_strlit("⟷");
                    reveal_strlit("⟶");
                    reveal_strlit("⟵");
                    reveal_strlit("⟺");
                    reveal_strlit("⟹");
                    reveal_strlit("⟸");
                    reveal_strlit("⟿");
                    reveal_strlit("⟾");
                }
                assert(symbols_of_len(symbols@, 1));
                let mut out: Vec<String> = Vec::new();
                let mut i: usize = 0;
                while i < symbols.len()
                    invariant
                        i <= symbols@.len(),
                        symbols@.len() == 10,
                        symbols_of_len(symbols@, 1),
                        out@.len() == i,
                        forall|k: int| 0 <= k < i ==> (#[trigger] out@[k])@.len() == width / 2,
                    decreases symbols.len() - i,
                {
                    out.push(repeated(symbols[i], width / 2));
                    i = i + 1;
                }
                out
            },
            AnimationStyle::Circuit => {
                let symbols = vec!["┌", "┐", "└", "┘", "├", "┤", "┬", "┴", "─", "│"];
                proof {
                    reveal_strlit("┌");
                    reveal_strlit("┐");
                    reveal_strlit("└");
                    reveal_strlit("┘");
                    reveal_strlit("├");
                    reveal_strlit("┤");
                    reveal_strlit("┬");
                    reveal_strlit("┴");
                    reveal_strlit("─");
                    reveal_strlit("│");
                }
                assert(symbols_of_len(symbols@, 1));
                random_frames(&symbols, 10, width, Ghost(1))
            },
            AnimationStyle::DNA => {
                let symbols = vec!["AT", "TA", "GC", "CG"];
                proof {
                    reveal_strlit("AT");
                    reveal_strlit("TA");
                    reveal_strlit("GC");
                    reveal_strlit("CG");
                }
                assert(symbols_of_len(symbols@, 2));
                random_frames(&symbols, 8, width / 2, Ghost(2))
            },
            AnimationStyle::Custom(frames) => {
                let mut out: Vec<String> = Vec::new();
                let mut i: usize = 0;
                while i < frames.len()
                    invariant
                        i <= frames@.len(),
                        out@.len() == i,
                        forall|k: int| 0 <= k < i ==> (#[trigger] out@[k])@ == frames@[k]@,
                    decreases frames.len() - i,
                {
                    out.push(frames[i].clone());
                    i = i + 1;
                }
                out
            },
        }
    }

    /// The color of each of `frame_count` frames.
    pub fn generate_color_map(color: ColorStyle, frame_count: usize) -> (r: Vec<String>)
        ensures
            r@.len() == frame_count,
            forall|i: int|
                0 <= i < frame_count ==> (#[trigger] r@[i])@ == color_code(color, i, frame_count as int),
    {
        let mut out: Vec<String> = Vec::new();
        let mut i: usize = 0;
        while i < frame_count
            invariant
                i <= frame_count,
                out@.len() == i,
                forall|k: int| 0 <= k < i ==> (#[trigger] out@[k])@ == color_code(color, k, frame_count as int),
            decreases frame_count - i,
        {
            out.push(color_text(color, i, frame_count));
            i = i + 1;
        }
        out
    }
}

} // verus!
