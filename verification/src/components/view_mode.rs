//! The ways a translated file can be shown, with their labels and styles.

use vstd::prelude::*;

verus! {

/// How file content is shown.
#[derive(Debug, Clone, Copy, PartialEq, Eq, Structural)]
pub enum ViewMode {
    Original,
    Translated,
    Bilingual,
}

/// The label of each view mode.
pub open spec fn view_mode_label(m: ViewMode) -> Seq<char> {
    match m {
        ViewMode::Original => "原文"@,
        ViewMode::Translated => "译文"@,
        ViewMode::Bilingual => "双语"@,
    }
}

/// The description of each view mode.
pub open spec fn view_mode_description(m: ViewMode) -> Seq<char> {
    match m {
        ViewMode::Original => "显示原始内容"@,
        ViewMode::Translated => "显示翻译内容"@,
        ViewMode::Bilingual => "显示原文译文对照"@,
    }
}

impl ViewMode {
    /// The modes in the order the selector shows them.
    pub fn all() -> (r: Vec<ViewMode>)
        ensures
            r@ == seq![ViewMode::Original, ViewMode::Translated, ViewMode::Bilingual],
    {
        vec![ViewMode::Original, ViewMode::Translated, ViewMode::Bilingual]
    }

    /// The mode's label.
    pub fn to_string(&self) -> (r: String)
        ensures
            r@ == view_mode_label(*self),
    {
        match self {
            ViewMode::Original => "原文".to_owned(),
            ViewMode::Translated => "译文".to_owned(),
            ViewMode::Bilingual => "双语".to_owned(),
        }
    }

    /// What the mode shows.
    pub fn description(&self) -> (r: String)
        ensures
            r@ == view_mode_description(*self),
    {
        match self {
            ViewMode::Original => "显示原始内容".to_owned(),
            ViewMode::Translated => "显示翻译内容".to_owned(),
            ViewMode::Bilingual => "显示原文译文对照".to_owned(),
        }
    }

    /// The SVG path of the mode's icon.
    pub fn icon(&self) -> (r: &'static str)
        ensures
            *self == ViewMode::Original ==> r@ == "M9 12h6m-6 4h6m2 5H7a2 2 0 01-2-2V5a2 2 0 012-2h5.586a1 1 0 01.707.293l5.414 5.414a1 1 0 01.293.707V19a2 2 0 01-2 2z"@,
            *self == ViewMode::Translated ==> r@ == "M3 5h12M9 3v2m1.048 9.5A18.022 18.022 0 016.412 9m6.088 9h7M11 21l5-10 5 10M12.751 5C11.783 10.77 8.07 15.61 3 18.129"@,
            *self == ViewMode::Bilingual ==> r@ == "M8 7v8a2 2 0 002 2h6M8 7V5a2 2 0 012-2h4.586a1 1 0 01.707.293l4.414 4.414a1 1 0 01.293.707V15a2 2 0 01-2 2v0a2 2 0 01-2-2V9a2 2 0 00-2-2H8z"@,
    {
        match self {
            ViewMode::Original => "M9 12h6m-6 4h6m2 5H7a2 2 0 01-2-2V5a2 2 0 012-2h5.586a1 1 0 01.707.293l5.414 5.414a1 1 0 01.293.707V19a2 2 0 01-2 2z",
            ViewMode::Translated => "M3 5h12M9 3v2m1.048 9.5A18.022 18.022 0 016.412 9m6.088 9h7M11 21l5-10 5 10M12.751 5C11.783 10.77 8.07 15.61 3 18.129",
            ViewMode::Bilingual => "M8 7v8a2 2 0 002 2h6M8 7V5a2 2 0 012-2h4.586a1 1 0 01.707.293l4.414 4.414a1 1 0 01.293.707V15a2 2 0 01-2 2v0a2 2 0 01-2-2V9a2 2 0 00-2-2H8z",
        }
    }

    /// The style classes of the mode's button when it is not selected.
    pub fn color_classes(&self) -> (r: &'static str)
        ensures
            *self == ViewMode::Original ==> r@ == "bg-blue-100 text-blue-800 border-blue-200 hover:bg-blue-200"@,
            *self == ViewMode::Translated ==> r@ == "bg-green-100 text-green-800 border-green-200 hover:bg-green-200"@,
            *self == ViewMode::Bilingual ==> r@ == "bg-purple-100 text-purple-800 border-purple-200 hover:bg-purple-200"@,
    {
        match self {
            ViewMode::Original => "bg-blue-100 text-blue-800 border-blue-200 hover:bg-blue-200",
            ViewMode::Translated => "bg-green-100 text-green-800 border-green-200 hover:bg-green-200",
            ViewMode::Bilingual => "bg-purple-100 text-purple-800 border-purple-200 hover:bg-purple-200",
        }
    }

    /// The style classes of the mode's button when it is selected.
    pub fn active_color_classes(&self) -> (r: &'static str)
        ensures
            *self == ViewMode::Original ==> r@ == "bg-blue-500 text-white border-blue-500"@,
            *self == ViewMode::Translated ==> r@ == "bg-green-500 text-white border-green-500"@,
            *self == ViewMode::Bilingual ==> r@ == "bg-purple-500 text-white border-purple-500"@,
    {
        match self {
            ViewMode::Original => "bg-blue-500 text-white border-blue-500",
            ViewMode::Translated => "bg-green-500 text-white border-green-500",
            ViewMode::Bilingual => "bg-purple-500 text-white border-purple-500",
        }
    }
}

} // verus!
