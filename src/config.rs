use vstd::prelude::*;

verus! {

/// Formatting options, set once by the caller and only read afterwards.
pub struct FormatterConfig {
    /// Put before every emitted row, when it fits the width.
    pub prefix: String,
    /// Put after every emitted row, when it fits the width.
    pub suffix: String,
    /// Printed once before the content.
    pub header: String,
    /// Printed once after the content.
    pub footer: String,
    /// Printed between two source lines.
    pub line_breaker: String,
    /// Width of every emitted row in characters; zero for natural width.
    pub width: usize,
    /// The command whose output is decorated.
    pub cmd: String,
    /// The command's arguments.
    pub args: Vec<String>,
}

/// A configuration as plain values.
pub struct ConfigModel {
    pub prefix: Seq<char>,
    pub suffix: Seq<char>,
    pub header: Seq<char>,
    pub footer: Seq<char>,
    pub line_breaker: Seq<char>,
    pub width: nat,
    pub cmd: Seq<char>,
    pub args: Seq<Seq<char>>,
}

/// The texts held by a vector of strings.
pub open spec fn texts_view(v: Seq<String>) -> Seq<Seq<char>> {
    v.map_values(|s: String| s@)
}

impl View for FormatterConfig {
    type V = ConfigModel;

    open spec fn view(&self) -> ConfigModel {
        ConfigModel {
            prefix: self.prefix@,
            suffix: self.suffix@,
            header: self.header@,
            footer: self.footer@,
            line_breaker: self.line_breaker@,
            width: self.width as nat,
            cmd: self.cmd@,
            args: texts_view(self.args@),
        }
    }
}

/// The configuration with no decoration, natural width and no command.
pub open spec fn blank_config() -> ConfigModel {
    ConfigModel {
        prefix: Seq::empty(),
        suffix: Seq::empty(),
        header: Seq::empty(),
        footer: Seq::empty(),
        line_breaker: Seq::empty(),
        width: 0,
        cmd: Seq::empty(),
        args: Seq::empty(),
    }
}

impl FormatterConfig {
    /// A configuration with no decoration, natural width and no command.
    pub fn new() -> (r: Self)
        ensures
            r@ == blank_config(),
    {
        let r = FormatterConfig {
            prefix: String::new(),
            suffix: String::new(),
            header: String::new(),
            footer: String::new(),
            line_breaker: String::new(),
            width: 0,
            cmd: String::new(),
            args: Vec::new(),
        };
        proof {
            assert(r@.args =~= Seq::<Seq<char>>::empty());
        }
        r
    }
}

} // verus!
