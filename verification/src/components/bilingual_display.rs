//! Side-by-side lines of an original text and its translation.

use vstd::prelude::*;
use crate::text::{chars_of, lines, lines_vec, push_str, string_of, trim, trim_vec, views};
use crate::theme::catppuccin::CatppuccinTheme;

verus! {

/// Line `i` of `ls`, or the empty line past its end.
pub open spec fn line_or_empty(ls: Seq<Seq<char>>, i: int) -> Seq<char> {
    if 0 <= i < ls.len() {
        ls[i]
    } else {
        seq![]
    }
}

/// The pairs of lines at positions `0..k`, without the pairs in which
/// both lines are blank.
pub open spec fn line_pairs(o: Seq<Seq<char>>, t: Seq<Seq<char>>, k: int) -> Seq<(Seq<char>, Seq<char>)>
    decreases k,
{
    if k <= 0 {
        seq![]
    } else {
        let r = line_pairs(o, t, k - 1);
        let a = line_or_empty(o, k - 1);
        let b = line_or_empty(t, k - 1);
        if trim(a).len() == 0 && trim(b).len() == 0 {
            r
        } else {
            r.push((a, b))
        }
    }
}

/// The bilingual pairs of two texts: their lines side by side, the shorter
/// text padded with empty lines, blank pairs left out.
pub open spec fn bilingual_pairs(original: Seq<char>, translated: Seq<char>) -> Seq<(Seq<char>, Seq<char>)> {
    let o = lines(original);
    let t = lines(translated);
    line_pairs(o, t, if o.len() >= t.len() { o.len() as int } else { t.len() as int })
}

/// The views of a vector of string pairs.
pub open spec fn pair_views(v: Seq<(String, String)>) -> Seq<(Seq<char>, Seq<char>)> {
    v.map_values(|p: (String, String)| (p.0@, p.1@))
}

/// The lines of `original` and `translated` paired up, as
/// `bilingual_pairs` states it.
pub fn create_bilingual_pairs(original: &str, translated: &str) -> (r: Vec<(String, String)>)
    ensures
        pair_views(r@) == bilingual_pairs(original@, translated@),
{
    let ol = lines_vec(&chars_of(original));
    let tl = lines_vec(&chars_of(translated));
    let n = if ol.len() >= tl.len() { ol.len() } else { tl.len() };
    let ghost o = views(ol@);
    let ghost t = views(tl@);
    let mut pairs: Vec<(String, String)> = Vec::new();
    let mut i: usize = 0;
    while i < n
        invariant
            i <= n,
            o == views(ol@),
            t == views(tl@),
            o == lines(original@),
            t == lines(translated@),
            n == if o.len() >= t.len() { o.len() } else { t.len() },
            pair_views(pairs@) == line_pairs(o, t, i as int),
        decreases n - i,
    {
        let a: Vec<char> = if i < ol.len() { ol[i].clone() } else { Vec::new() };
        let b: Vec<char> = if i < tl.len() { tl[i].clone() } else { Vec::new() };
        assert(a@ == line_or_empty(o, i as int));
        assert(b@ == line_or_empty(t, i as int));
        let blank = trim_vec(&a).len() == 0 && trim_vec(&b).len() == 0;
        if !blank {
            let ghost p0 = pairs@;
            pairs.push((string_of(&a), string_of(&b)));
            assert(pair_views(pairs@) =~= pair_views(p0).push((a@, b@)));
        }
        i += 1;
    }
    pairs
}

/// A block style: background, text colour and a rounded one-pixel border.
pub open spec fn block_style(bg: Seq<char>, fg: Seq<char>, border: Seq<char>) -> Seq<char> {
    "background-color: "@ + bg + "; color: "@ + fg + "; border: 1px solid "@ + border + "; border-radius: 6px;"@
}

/// `block_style`.
fn block_style_string(bg: &str, fg: &str, border: &str) -> (r: String)
    ensures
        r@ == block_style(bg@, fg@, border@),
{
    let mut s = "background-color: ".to_owned();
    push_str(&mut s, bg);
    push_str(&mut s, "; color: ");
    push_str(&mut s, fg);
    push_str(&mut s, "; border: 1px solid ");
    push_str(&mut s, border);
    push_str(&mut s, "; border-radius: 6px;");
    s
}

/// The styles of the bilingual view, taken from a palette.
pub trait BilingualThemeExt {
    /// The style of a translated block.
    fn translated_bg_style(&self) -> String;

    /// The style of an original block.
    fn original_bg_style(&self) -> String;

    /// The accent colour.
    fn accent_color(&self) -> String;

    /// The muted colour.
    fn muted_color(&self) -> String;

    /// The border colour declaration.
    fn border_style(&self) -> String;
}

impl BilingualThemeExt for CatppuccinTheme {
    fn translated_bg_style(&self) -> (r: String)
        ensures
            r@ == block_style(self.surface1@, self.text@, self.blue@),
    {
        block_style_string(self.surface1, self.text, self.blue)
    }

    fn original_bg_style(&self) -> (r: String)
        ensures
            r@ == block_style(self.surface0@, self.subtext1@, self.overlay0@),
    {
        block_style_string(self.surface0, self.subtext1, self.overlay0)
    }

    fn accent_color(&self) -> (r: String)
        ensures
            r@ == self.blue@,
    {
        self.blue.to_owned()
    }

    fn muted_color(&self) -> (r: String)
        ensures
            r@ == self.overlay0@,
    {
        self.overlay0.to_owned()
    }

    fn border_style(&self) -> (r: String)
        ensures
            r@ == "border-color: "@ + self.surface2@ + ";"@,
    {
        let mut s = "border-color: ".to_owned();
        push_str(&mut s, self.surface2);
        push_str(&mut s, ";");
        s
    }
}

} // verus!
