//! The Catppuccin colour themes.

use vstd::prelude::*;
use crate::text::push_str;

verus! {

/// The four Catppuccin flavours.
#[derive(Clone, Copy, Debug, PartialEq, Eq, Structural)]
pub enum ThemeVariant {
    Latte,
    Frappe,
    Macchiato,
    Mocha,
}

/// The name shown for a flavour.
pub open spec fn variant_name(v: ThemeVariant) -> Seq<char> {
    match v {
        ThemeVariant::Latte => "Latte"@,
        ThemeVariant::Frappe => "Frappe"@,
        ThemeVariant::Macchiato => "Macchiato"@,
        ThemeVariant::Mocha => "Mocha"@,
    }
}

impl ThemeVariant {
    /// The name shown for the flavour (what `Display` writes).
    pub fn name(&self) -> (r: &'static str)
        ensures
            r@ == variant_name(*self),
    {
        match self {
            ThemeVariant::Latte => "Latte",
            ThemeVariant::Frappe => "Frappe",
            ThemeVariant::Macchiato => "Macchiato",
            ThemeVariant::Mocha => "Mocha",
        }
    }

    /// The palette of the flavour.
    pub fn theme(&self) -> (r: CatppuccinTheme)
        ensures
            theme_colors(r) == palette(*self),
    {
        CatppuccinTheme::get_theme(self)
    }
}

impl Default for ThemeVariant {
    /// The light flavour, Latte.
    fn default() -> (r: ThemeVariant)
        ensures
            r == ThemeVariant::Latte,
    {
        ThemeVariant::Latte
    }
}

/// A palette: a colour, as `#rrggbb`, for each of the named roles.
#[derive(Clone, Copy, Debug)]
pub struct CatppuccinTheme {
    pub rosewater: &'static str,
    pub flamingo: &'static str,
    pub pink: &'static str,
    pub mauve: &'static str,
    pub red: &'static str,
    pub maroon: &'static str,
    pub peach: &'static str,
    pub yellow: &'static str,
    pub green: &'static str,
    pub teal: &'static str,
    pub sky: &'static str,
    pub sapphire: &'static str,
    pub blue: &'static str,
    pub lavender: &'static str,
    pub text: &'static str,
    pub subtext1: &'static str,
    pub subtext0: &'static str,
    pub overlay2: &'static str,
    pub overlay1: &'static str,
    pub overlay0: &'static str,
    pub surface2: &'static str,
    pub surface1: &'static str,
    pub surface0: &'static str,
    pub base: &'static str,
    pub mantle: &'static str,
    pub crust: &'static str,
}

/// The role names, in the order of `theme_colors`.
pub open spec fn color_names() -> Seq<Seq<char>> {
    seq![
        "rosewater"@,
        "flamingo"@,
        "pink"@,
        "mauve"@,
        "red"@,
        "maroon"@,
        "peach"@,
        "yellow"@,
        "green"@,
        "teal"@,
        "sky"@,
        "sapphire"@,
        "blue"@,
        "lavender"@,
        "text"@,
        "subtext1"@,
        "subtext0"@,
        "overlay2"@,
        "overlay1"@,
        "overlay0"@,
        "surface2"@,
        "surface1"@,
        "surface0"@,
        "base"@,
        "mantle"@,
        "crust"@,
    ]
}

/// The colours of a palette, in the order of `color_names`.
pub open spec fn theme_colors(t: CatppuccinTheme) -> Seq<Seq<char>> {
    seq![
        t.rosewater@,
        t.flamingo@,
        t.pink@,
        t.mauve@,
        t.red@,
        t.maroon@,
        t.peach@,
        t.yellow@,
        t.green@,
        t.teal@,
        t.sky@,
        t.sapphire@,
        t.blue@,
        t.lavender@,
        t.text@,
        t.subtext1@,
        t.subtext0@,
        t.overlay2@,
        t.overlay1@,
        t.overlay0@,
        t.surface2@,
        t.surface1@,
        t.surface0@,
        t.base@,
        t.mantle@,
        t.crust@,
    ]
}

/// The colours of each flavour, in the order of `color_names`.
pub open spec fn palette(v: ThemeVariant) -> Seq<Seq<char>> {
    match v {
        ThemeVariant::Latte => seq![
            "#dc8a78"@,
            "#dd7878"@,
            "#ea76cb"@,
            "#8839ef"@,
            "#d20f39"@,
            "#e64553"@,
            "#fe640b"@,
            "#df8e1d"@,
            "#40a02b"@,
            "#179299"@,
            "#04a5e5"@,
            "#209fb5"@,
            "#1e66f5"@,
            "#7287fd"@,
            "#4c4f69"@,
            "#5c5f77"@,
            "#6c6f85"@,
            "#7c7f93"@,
            "#8c8fa1"@,
            "#9ca0b0"@,
            "#acb0be"@,
            "#bcc0cc"@,
            "#ccd0da"@,
            "#eff1f5"@,
            "#e6e9ef"@,
            "#dce0e8"@,
        ],
        ThemeVariant::Frappe => seq![
            "#f2d5cf"@,
            "#eebebe"@,
            "#f4b8e4"@,
            "#ca9ee6"@,
            "#e78284"@,
            "#ea999c"@,
            "#ef9f76"@,
            "#e5c890"@,
            "#a6d189"@,
            "#81c8be"@,
            "#99d1db"@,
            "#85c1dc"@,
            "#8caaee"@,
            "#babbf1"@,
            "#c6d0f5"@,
            "#b5bfe2"@,
            "#a5adce"@,
            "#949cbb"@,
            "#838ba7"@,
            "#737994"@,
            "#626880"@,
            "#51576d"@,
            "#414559"@,
            "#303446"@,
            "#292c3c"@,
            "#232634"@,
        ],
        ThemeVariant::Macchiato => seq![
            "#f4dbd6"@,
            "#f0c6c6"@,
            "#f5bde6"@,
            "#c6a0f6"@,
            "#ed8796"@,
            "#ee99a0"@,
            "#f5a97f"@,
            "#eed49f"@,
            "#a6da95"@,
            "#8bd5ca"@,
            "#91d7e3"@,
            "#7dc4e4"@,
            "#8aadf4"@,
            "#b7bdf8"@,
            "#cad3f5"@,
            "#b8c0e0"@,
            "#a5adcb"@,
            "#939ab7"@,
            "#8087a2"@,
            "#6e738d"@,
            "#5b6078"@,
            "#494d64"@,
            "#363a4f"@,
            "#24273a"@,
            "#1e2030"@,
            "#181926"@,
        ],
        ThemeVariant::Mocha => seq![
            "#f5e0dc"@,
            "#f2cdcd"@,
            "#f5c2e7"@,
            "#cba6f7"@,
            "#f38ba8"@,
            "#eba0ac"@,
            "#fab387"@,
            "#f9e2af"@,
            "#a6e3a1"@,
            "#94e2d5"@,
            "#89dceb"@,
            "#74c7ec"@,
            "#89b4fa"@,
            "#b4befe"@,
            "#cdd6f4"@,
            "#bac2de"@,
            "#a6adc8"@,
            "#9399b2"@,
            "#7f849c"@,
            "#6c7086"@,
            "#585b70"@,
            "#45475a"@,
            "#313244"@,
            "#1e1e2e"@,
            "#181825"@,
            "#11111b"@,
        ],
    }
}

/// The CSS custom property of a role: `--color-` and its name.
pub open spec fn css_variable(name: Seq<char>) -> Seq<char> {
    "--color-"@ + name
}

/// `--color-` followed by `name`.
fn css_variable_name(name: &str) -> (r: String)
    ensures
        r@ == css_variable(name@),
{
    let mut s = "--color-".to_owned();
    push_str(&mut s, name);
    s
}

impl CatppuccinTheme {
    /// The palette of a flavour.
    pub fn get_theme(variant: &ThemeVariant) -> (r: CatppuccinTheme)
        ensures
            theme_colors(r) == palette(*variant),
    {
        match variant {
            ThemeVariant::Latte => CatppuccinTheme {
                rosewater: "#dc8a78",
                flamingo: "#dd7878",
                pink: "#ea76cb",
                mauve: "#8839ef",
                red: "#d20f39",
                maroon: "#e64553",
                peach: "#fe640b",
                yellow: "#df8e1d",
                green: "#40a02b",
                teal: "#179299",
                sky: "#04a5e5",
                sapphire: "#209fb5",
                blue: "#1e66f5",
                lavender: "#7287fd",
                text: "#4c4f69",
                subtext1: "#5c5f77",
                subtext0: "#6c6f85",
                overlay2: "#7c7f93",
                overlay1: "#8c8fa1",
                overlay0: "#9ca0b0",
                surface2: "#acb0be",
                surface1: "#bcc0cc",
                surface0: "#ccd0da",
                base: "#eff1f5",
                mantle: "#e6e9ef",
                crust: "#dce0e8",
            },
            ThemeVariant::Frappe => CatppuccinTheme {
                rosewater: "#f2d5cf",
                flamingo: "#eebebe",
                pink: "#f4b8e4",
                mauve: "#ca9ee6",
                red: "#e78284",
                maroon: "#ea999c",
                peach: "#ef9f76",
                yellow: "#e5c890",
                green: "#a6d189",
                teal: "#81c8be",
                sky: "#99d1db",
                sapphire: "#85c1dc",
                blue: "#8caaee",
                lavender: "#babbf1",
                text: "#c6d0f5",
                subtext1: "#b5bfe2",
                subtext0: "#a5adce",
                overlay2: "#949cbb",
                overlay1: "#838ba7",
                overlay0: "#737994",
                surface2: "#626880",
                surface1: "#51576d",
                surface0: "#414559",
                base: "#303446",
                mantle: "#292c3c",
                crust: "#232634",
            },
            ThemeVariant::Macchiato => CatppuccinTheme {
                rosewater: "#f4dbd6",
                flamingo: "#f0c6c6",
                pink: "#f5bde6",
                mauve: "#c6a0f6",
                red: "#ed8796",
                maroon: "#ee99a0",
                peach: "#f5a97f",
                yellow: "#eed49f",
                green: "#a6da95",
                teal: "#8bd5ca",
                sky: "#91d7e3",
                sapphire: "#7dc4e4",
                blue: "#8aadf4",
                lavender: "#b7bdf8",
                text: "#cad3f5",
                subtext1: "#b8c0e0",
                subtext0: "#a5adcb",
                overlay2: "#939ab7",
                overlay1: "#8087a2",
                overlay0: "#6e738d",
                surface2: "#5b6078",
                surface1: "#494d64",
                surface0: "#363a4f",
                base: "#24273a",
                mantle: "#1e2030",
                crust: "#181926",
            },
            ThemeVariant::Mocha => CatppuccinTheme {
                rosewater: "#f5e0dc",
                flamingo: "#f2cdcd",
                pink: "#f5c2e7",
                mauve: "#cba6f7",
                red: "#f38ba8",
                maroon: "#eba0ac",
                peach: "#fab387",
                yellow: "#f9e2af",
                green: "#a6e3a1",
                teal: "#94e2d5",
                sky: "#89dceb",
                sapphire: "#74c7ec",
                blue: "#89b4fa",
                lavender: "#b4befe",
                text: "#cdd6f4",
                subtext1: "#bac2de",
                subtext0: "#a6adc8",
                overlay2: "#9399b2",
                overlay1: "#7f849c",
                overlay0: "#6c7086",
                surface2: "#585b70",
                surface1: "#45475a",
                surface0: "#313244",
                base: "#1e1e2e",
                mantle: "#181825",
                crust: "#11111b",
            },
        }
    }

    /// The CSS custom properties that put the palette in force on a page:
    /// for each role, in the order of `color_names`, `--color-` and its
    /// name with its colour.
    pub fn css_variables(&self) -> (r: Vec<(String, String)>)
        ensures
            r@.len() == color_names().len(),
            forall|i: int| 0 <= i < r@.len() ==> {
                &&& (#[trigger] r@[i]).0@ == css_variable(color_names()[i])
                &&& r@[i].1@ == theme_colors(*self)[i]
            },
    {
        let mut v: Vec<(String, String)> = Vec::new();
        v.push((css_variable_name("rosewater"), self.rosewater.to_owned()));
        v.push((css_variable_name("flamingo"), self.flamingo.to_owned()));
        v.push((css_variable_name("pink"), self.pink.to_owned()));
        v.push((css_variable_name("mauve"), self.mauve.to_owned()));
        v.push((css_variable_name("red"), self.red.to_owned()));
        v.push((css_variable_name("maroon"), self.maroon.to_owned()));
        v.push((css_variable_name("peach"), self.peach.to_owned()));
        v.push((css_variable_name("yellow"), self.yellow.to_owned()));
        v.push((css_variable_name("green"), self.green.to_owned()));
        v.push((css_variable_name("teal"), self.teal.to_owned()));
        v.push((css_variable_name("sky"), self.sky.to_owned()));
        v.push((css_variable_name("sapphire"), self.sapphire.to_owned()));
        v.push((css_variable_name("blue"), self.blue.to_owned()));
        v.push((css_variable_name("lavender"), self.lavender.to_owned()));
        v.push((css_variable_name("text"), self.text.to_owned()));
        v.push((css_variable_name("subtext1"), self.subtext1.to_owned()));
        v.push((css_variable_name("subtext0"), self.subtext0.to_owned()));
        v.push((css_variable_name("overlay2"), self.overlay2.to_owned()));
        v.push((css_variable_name("overlay1"), self.overlay1.to_owned()));
        v.push((css_variable_name("overlay0"), self.overlay0.to_owned()));
        v.push((css_variable_name("surface2"), self.surface2.to_owned()));
        v.push((css_variable_name("surface1"), self.surface1.to_owned()));
        v.push((css_variable_name("surface0"), self.surface0.to_owned()));
        v.push((css_variable_name("base"), self.base.to_owned()));
        v.push((css_variable_name("mantle"), self.mantle.to_owned()));
        v.push((css_variable_name("crust"), self.crust.to_owned()));
        v
    }
}

} // verus!
