use vstd::prelude::*;

verus! {

/// Static configuration for the segment, supplied whole by the host and
/// never mutated here: the template, the symbol text, the style value, and
/// the kill switch that suppresses the segment unconditionally.
pub struct JujuConfig<'a> {
    pub format: &'a str,
    pub symbol: &'a str,
    pub style: &'a str,
    pub disabled: bool,
}

impl<'a> JujuConfig<'a> {
    /// The default configuration.
    pub fn new() -> (c: JujuConfig<'a>)
        ensures
            c.format@ == "via [$symbol$version$model]($style) "@,
            c.symbol@ == "🔮 "@,
            c.style@ == "fg:#E95420"@,
            !c.disabled,
    {
        JujuConfig {
            format: "via [$symbol$version$model]($style) ",
            symbol: "🔮 ",
            style: "fg:#E95420",
            disabled: false,
        }
    }
}

} // verus!
