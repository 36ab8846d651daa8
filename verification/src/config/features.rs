//! Feature switches: which parts of the application are on.

use vstd::prelude::*;
use crate::config::env::CompileTimeEnv;
use crate::text::{
    append_str, chars_of, ends_with_vec, eq_chars, join, join_vec, lowercase_vec, slice_vec, split_on, split_on_vec,
    starts_with_vec, string_of, trim, trim_char, trim_char_vec, trim_vec, unicode_lowercase, views,
    unicode_whitespace, strip_start, strip_end, ws_pred, eq_pred, lemma_split_join, lemma_split_on_absent,
    lemma_split_on_concat, ascii_lower, is_ascii_text,
};
use crate::num::{parse_bool, parse_bool_chars};

verus! {

/// A part of the application that can be switched on and off.
#[derive(Debug, Clone, Copy, PartialEq, Eq, Structural, Hash)]
pub enum Feature {
    ProjectManagement,
    History,
    Search,
    BatchTranslation,
    UserAuthentication,
    ThemeSwitching,
    FileUpload,
    OfflineMode,
    PwaSupport,
    KeyboardShortcuts,
    PerformanceMonitoring,
    ErrorTracking,
    AutoSave,
}

/// The number of features.
pub const FEATURE_COUNT: usize = 13;

/// The feature at position `k` of `Feature::all`.
pub open spec fn feature_at(k: int) -> Feature {
    if k == 0 { Feature::ProjectManagement } else if k == 1 { Feature::History }
    else if k == 2 { Feature::Search } else if k == 3 { Feature::BatchTranslation }
    else if k == 4 { Feature::UserAuthentication } else if k == 5 { Feature::ThemeSwitching }
    else if k == 6 { Feature::FileUpload } else if k == 7 { Feature::OfflineMode }
    else if k == 8 { Feature::PwaSupport } else if k == 9 { Feature::KeyboardShortcuts }
    else if k == 10 { Feature::PerformanceMonitoring } else if k == 11 { Feature::ErrorTracking }
    else { Feature::AutoSave }
}

/// The position of a feature in `Feature::all`.
pub open spec fn feature_index(f: Feature) -> int {
    match f {
        Feature::ProjectManagement => 0,
        Feature::History => 1,
        Feature::Search => 2,
        Feature::BatchTranslation => 3,
        Feature::UserAuthentication => 4,
        Feature::ThemeSwitching => 5,
        Feature::FileUpload => 6,
        Feature::OfflineMode => 7,
        Feature::PwaSupport => 8,
        Feature::KeyboardShortcuts => 9,
        Feature::PerformanceMonitoring => 10,
        Feature::ErrorTracking => 11,
        Feature::AutoSave => 12,
    }
}

/// The key of a feature in the exported JSON: its name in lower case.
pub open spec fn feature_key(f: Feature) -> Seq<char> {
    match f {
        Feature::ProjectManagement => "projectmanagement"@,
        Feature::History => "history"@,
        Feature::Search => "search"@,
        Feature::BatchTranslation => "batchtranslation"@,
        Feature::UserAuthentication => "userauthentication"@,
        Feature::ThemeSwitching => "themeswitching"@,
        Feature::FileUpload => "fileupload"@,
        Feature::OfflineMode => "offlinemode"@,
        Feature::PwaSupport => "pwasupport"@,
        Feature::KeyboardShortcuts => "keyboardshortcuts"@,
        Feature::PerformanceMonitoring => "performancemonitoring"@,
        Feature::ErrorTracking => "errortracking"@,
        Feature::AutoSave => "autosave"@,
    }
}

/// Whether a feature is on by default: those of the build configuration,
/// performance monitoring with debug mode, offline mode and PWA support
/// off, the rest on.
pub open spec fn default_on(f: Feature) -> bool {
    !(f == Feature::OfflineMode || f == Feature::PwaSupport)
}

impl Feature {
    /// The index of `self` in `Feature::all`.
    pub fn index(&self) -> (r: usize)
        ensures
            r == feature_index(*self),
            r < FEATURE_COUNT,
    {
        match self {
            Feature::ProjectManagement => 0,
            Feature::History => 1,
            Feature::Search => 2,
            Feature::BatchTranslation => 3,
            Feature::UserAuthentication => 4,
            Feature::ThemeSwitching => 5,
            Feature::FileUpload => 6,
            Feature::OfflineMode => 7,
            Feature::PwaSupport => 8,
            Feature::KeyboardShortcuts => 9,
            Feature::PerformanceMonitoring => 10,
            Feature::ErrorTracking => 11,
            Feature::AutoSave => 12,
        }
    }

    /// The feature at position `k` of `Feature::all`.
    pub fn at(k: usize) -> (r: Feature)
        requires
            k < FEATURE_COUNT,
        ensures
            r == feature_at(k as int),
            feature_index(r) == k,
    {
        if k == 0 { Feature::ProjectManagement } else if k == 1 { Feature::History }
        else if k == 2 { Feature::Search } else if k == 3 { Feature::BatchTranslation }
        else if k == 4 { Feature::UserAuthentication } else if k == 5 { Feature::ThemeSwitching }
        else if k == 6 { Feature::FileUpload } else if k == 7 { Feature::OfflineMode }
        else if k == 8 { Feature::PwaSupport } else if k == 9 { Feature::KeyboardShortcuts }
        else if k == 10 { Feature::PerformanceMonitoring } else if k == 11 { Feature::ErrorTracking }
        else { Feature::AutoSave }
    }

    /// The name shown for the feature.
    pub fn display_name(&self) -> (r: &'static str)
        ensures
            r@.len() > 0,
            r@ == display_name_spec(*self),
    {
        proof {
            reveal_strlit("项目管理"); reveal_strlit("历史记录"); reveal_strlit("搜索功能"); reveal_strlit("批量翻译");
            reveal_strlit("用户认证"); reveal_strlit("主题切换"); reveal_strlit("文件上传"); reveal_strlit("离线模式");
            reveal_strlit("PWA支持"); reveal_strlit("键盘快捷键"); reveal_strlit("性能监控"); reveal_strlit("错误追踪");
            reveal_strlit("自动保存");
        }
        match self {
            Feature::ProjectManagement => "项目管理",
            Feature::History => "历史记录",
            Feature::Search => "搜索功能",
            Feature::BatchTranslation => "批量翻译",
            Feature::UserAuthentication => "用户认证",
            Feature::ThemeSwitching => "主题切换",
            Feature::FileUpload => "文件上传",
            Feature::OfflineMode => "离线模式",
            Feature::PwaSupport => "PWA支持",
            Feature::KeyboardShortcuts => "键盘快捷键",
            Feature::PerformanceMonitoring => "性能监控",
            Feature::ErrorTracking => "错误追踪",
            Feature::AutoSave => "自动保存",
        }
    }

    /// What the feature does (`description_spec`).
    pub fn description(&self) -> (r: &'static str)
        ensures
            r@.len() > 0,
            r@ == description_spec(*self),
    {
        proof {
            reveal_strlit("管理翻译项目，组织和分类翻译工作"); reveal_strlit("查看和管理翻译历史记录");
            reveal_strlit("搜索翻译内容和历史记录"); reveal_strlit("批量翻译多个URL或文件");
            reveal_strlit("用户登录和账户管理"); reveal_strlit("切换应用主题和外观"); reveal_strlit("上传文件进行翻译");
            reveal_strlit("离线模式下的基本功能"); reveal_strlit("渐进式Web应用支持"); reveal_strlit("键盘快捷键操作");
            reveal_strlit("应用性能监控和分析"); reveal_strlit("错误收集和报告"); reveal_strlit("自动保存用户输入和设置");
        }
        match self {
            Feature::ProjectManagement => "管理翻译项目，组织和分类翻译工作",
            Feature::History => "查看和管理翻译历史记录",
            Feature::Search => "搜索翻译内容和历史记录",
            Feature::BatchTranslation => "批量翻译多个URL或文件",
            Feature::UserAuthentication => "用户登录和账户管理",
            Feature::ThemeSwitching => "切换应用主题和外观",
            Feature::FileUpload => "上传文件进行翻译",
            Feature::OfflineMode => "离线模式下的基本功能",
            Feature::PwaSupport => "渐进式Web应用支持",
            Feature::KeyboardShortcuts => "键盘快捷键操作",
            Feature::PerformanceMonitoring => "应用性能监控和分析",
            Feature::ErrorTracking => "错误收集和报告",
            Feature::AutoSave => "自动保存用户输入和设置",
        }
    }

    /// Whether the feature is on by default (`default_on`).
    pub fn default_enabled(&self) -> (r: bool)
        ensures
            r == default_on(*self),
    {
        match self {
            Feature::ProjectManagement => CompileTimeEnv::is_project_management_enabled(),
            Feature::History => CompileTimeEnv::is_history_enabled(),
            Feature::Search => CompileTimeEnv::is_search_enabled(),
            Feature::BatchTranslation => CompileTimeEnv::is_batch_translation_enabled(),
            Feature::UserAuthentication => true,
            Feature::ThemeSwitching => true,
            Feature::FileUpload => true,
            Feature::OfflineMode => false,
            Feature::PwaSupport => false,
            Feature::KeyboardShortcuts => true,
            Feature::PerformanceMonitoring => CompileTimeEnv::is_debug_mode(),
            Feature::ErrorTracking => true,
            Feature::AutoSave => true,
        }
    }

    /// Whether the feature needs a signed-in user: project management,
    /// history, search and batch translation.
    pub fn requires_authentication(&self) -> (r: bool)
        ensures
            r == (feature_index(*self) < 4),
    {
        match self {
            Feature::ProjectManagement => true,
            Feature::History => true,
            Feature::Search => true,
            Feature::BatchTranslation => true,
            _ => false,
        }
    }

    /// Every feature, in order.
    pub fn all() -> (r: Vec<Feature>)
        ensures
            r@.len() == FEATURE_COUNT,
            forall|k: int| 0 <= k < FEATURE_COUNT ==> #[trigger] r@[k] == feature_at(k),
    {
        let mut r: Vec<Feature> = Vec::new();
        let mut k: usize = 0;
        while k < FEATURE_COUNT
            invariant
                k <= FEATURE_COUNT,
                r@.len() == k,
                forall|j: int| 0 <= j < k ==> #[trigger] r@[j] == feature_at(j),
            decreases FEATURE_COUNT - k,
        {
            r.push(Feature::at(k));
            k += 1;
        }
        r
    }
}

/// The feature switches.
#[derive(Debug, Clone)]
pub struct FeatureFlags {
    flags: Vec<bool>,
}

impl FeatureFlags {
    /// Whether each feature is on, by position.
    pub closed spec fn states(&self) -> Seq<bool> {
        self.flags@
    }

    /// One switch per feature.
    pub closed spec fn wf(&self) -> bool {
        self.flags@.len() == FEATURE_COUNT
    }

    /// A well-formed set of switches has one state per feature.
    pub proof fn lemma_len(&self)
        requires
            self.wf(),
        ensures
            self.states().len() == FEATURE_COUNT,
    {
    }

    /// Whether feature `f` is on.
    pub open spec fn on(&self, f: Feature) -> bool {
        self.states()[feature_index(f)]
    }

    /// The default switches.
    pub fn new() -> (r: FeatureFlags)
        ensures
            r.wf(),
            forall|f: Feature| #[trigger] r.on(f) == default_on(f),
    {
        let mut flags: Vec<bool> = Vec::new();
        let mut k: usize = 0;
        while k < FEATURE_COUNT
            invariant
                k <= FEATURE_COUNT,
                flags@.len() == k,
                forall|j: int| 0 <= j < k ==> #[trigger] flags@[j] == default_on(feature_at(j)),
            decreases FEATURE_COUNT - k,
        {
            flags.push(Feature::at(k).default_enabled());
            k += 1;
        }
        let r = FeatureFlags { flags };
        assert forall|f: Feature| #[trigger] r.on(f) == default_on(f) by {
            lemma_feature_position(f);
        }
        r
    }

    /// Whether `feature` is on.
    pub fn is_enabled(&self, feature: &Feature) -> (r: bool)
        requires
            self.wf(),
        ensures
            r == self.on(*feature),
    {
        self.flags[feature.index()]
    }

    /// Switches `feature` to `on`.
    fn set(&mut self, feature: Feature, on: bool)
        requires
            old(self).wf(),
        ensures
            final(self).wf(),
            final(self).states() == old(self).states().update(feature_index(feature), on),
    {
        let k = feature.index();
        self.flags.set(k, on);
    }

    /// Switches `feature` on.
    pub fn enable(&mut self, feature: Feature)
        requires
            old(self).wf(),
        ensures
            final(self).wf(),
            final(self).states() == old(self).states().update(feature_index(feature), true),
    {
        self.set(feature, true)
    }

    /// Switches `feature` off.
    pub fn disable(&mut self, feature: Feature)
        requires
            old(self).wf(),
        ensures
            final(self).wf(),
            final(self).states() == old(self).states().update(feature_index(feature), false),
    {
        self.set(feature, false)
    }

    /// Switches `feature` over.
    pub fn toggle(&mut self, feature: Feature)
        requires
            old(self).wf(),
        ensures
            final(self).wf(),
            final(self).states() == old(self).states().update(feature_index(feature), !old(self).on(feature)),
    {
        let current = self.is_enabled(&feature);
        self.set(feature, !current)
    }

    /// Sets each listed feature, in order (a later setting wins).
    pub fn set_multiple(&mut self, features: Vec<(Feature, bool)>)
        requires
            old(self).wf(),
        ensures
            final(self).wf(),
            final(self).states() == apply_settings(old(self).states(), features@),
    {
        let mut i: usize = 0;
        while i < features.len()
            invariant
                i <= features@.len(),
                self.wf(),
                self.states() == apply_settings(old(self).states(), features@.take(i as int)),
            decreases features.len() - i,
        {
            assert(features@.take(i + 1).drop_last() =~= features@.take(i as int));
            let (f, on) = features[i];
            self.set(f, on);
            i += 1;
        }
        assert(features@.take(features@.len() as int) =~= features@);
    }

    /// The features that are on, in the order of `Feature::all`.
    pub fn enabled_features(&self) -> (r: Vec<Feature>)
        requires
            self.wf(),
        ensures
            r@ == features_with(self.states(), true, FEATURE_COUNT as int),
    {
        self.features_in_state(true)
    }

    /// The features that are off, in the order of `Feature::all`.
    pub fn disabled_features(&self) -> (r: Vec<Feature>)
        requires
            self.wf(),
        ensures
            r@ == features_with(self.states(), false, FEATURE_COUNT as int),
    {
        self.features_in_state(false)
    }

    fn features_in_state(&self, on: bool) -> (r: Vec<Feature>)
        requires
            self.wf(),
        ensures
            r@ == features_with(self.states(), on, FEATURE_COUNT as int),
    {
        let mut r: Vec<Feature> = Vec::new();
        let mut k: usize = 0;
        while k < FEATURE_COUNT
            invariant
                k <= FEATURE_COUNT,
                self.wf(),
                r@ == features_with(self.states(), on, k as int),
            decreases FEATURE_COUNT - k,
        {
            if self.flags[k] == on {
                r.push(Feature::at(k));
            }
            k += 1;
        }
        r
    }

    /// Back to the default switches.
    pub fn reset_to_defaults(&mut self)
        ensures
            final(self).wf(),
            forall|f: Feature| #[trigger] final(self).on(f) == default_on(f),
    {
        *self = FeatureFlags::new();
    }

    /// The switches as JSON: `{"key":true,...}` in the order of
    /// `Feature::all`.
    pub fn to_json(&self) -> (r: String)
        requires
            self.wf(),
        ensures
            r@ == flags_json(self.states()),
    {
        let mut items: Vec<Vec<char>> = Vec::new();
        let mut k: usize = 0;
        while k < FEATURE_COUNT
            invariant
                k <= FEATURE_COUNT,
                self.wf(),
                views(items@) == json_items(self.states(), k as int),
            decreases FEATURE_COUNT - k,
        {
            let f = Feature::at(k);
            let mut item: Vec<char> = Vec::new();
            append_str(&mut item, "\"");
            append_str(&mut item, feature_key_exec(&f));
            append_str(&mut item, "\":");
            append_str(&mut item, if self.flags[k] { "true" } else { "false" });
            let ghost i0 = views(items@);
            items.push(item);
            assert(views(items@) =~= i0.push(json_item(feature_at(k as int), self.states()[k as int])));
            k += 1;
        }
        let mut out: Vec<char> = vec!['{'];
        let body = join_vec(&items, &chars_of(","));
        crate::text::append_slice(&mut out, &body);
        out.push('}');
        assert(out@ =~= seq!['{'] + join(json_items(self.states(), FEATURE_COUNT as int), ","@) + seq!['}']);
        string_of(&out)
    }

    /// Reads switches from JSON of the exported form: refused unless it is
    /// enclosed in braces; each `key:value` pair with a known key and a
    /// `true` or `false` value sets that feature, other pairs are skipped.
    pub fn from_json(&mut self, json: &str) -> (r: Result<(), String>)
        requires
            old(self).wf(),
        ensures
            final(self).wf(),
            match json_update(old(self).states(), json@) {
                Some(s) => r is Ok && final(self).states() == s,
                None => (r matches Err(e) && e@ == "无效的JSON格式"@) && final(self).states() == old(self).states(),
            },
    {
        proof { reveal_strlit("{"); reveal_strlit("}"); }
        let j = chars_of(json);
        let sw = starts_with_vec(&j, &chars_of("{"));
        let ew = ends_with_vec(&j, &chars_of("}"));
        proof {
            assert("{"@ =~= seq!['{']);
            assert("}"@ =~= seq!['}']);
            if j@.len() >= 1 {
                assert(j@.subrange(0, 1) =~= seq![j@[0]]);
                assert(j@.subrange(j@.len() - 1, j@.len() as int) =~= seq![j@.last()]);
                assert(seq![j@[0]][0] == j@[0]);
                assert(seq!['{'][0] == '{');
                assert(seq![j@.last()][0] == j@.last());
                assert(seq!['}'][0] == '}');
                assert(sw == (j@[0] == '{'));
                assert(ew == (j@.last() == '}'));
            }
        }
        if !sw || !ew {
            return Err("无效的JSON格式".to_owned());
        }
        assert(j@.len() >= 2) by {
            if j@.len() == 1 {
                assert(j@.subrange(0, 1)[0] == j@[0]);
                assert(j@.subrange(j@.len() - 1, j@.len() as int)[0] == j@[j@.len() - 1]);
            }
        }
        assert(j@.subrange(0, 1)[0] == j@[0]);
        assert(j@.subrange(j@.len() - 1, j@.len() as int)[0] == j@.last());
        let content = slice_vec(&j, 1, j.len() - 1);
        assert(json_update(self.states(), json@) == (if content@.len() == 0 { Some(self.states()) } else { Some(apply_pairs(self.states(), split_on(content@, ','))) }));
        if content.len() == 0 {
            return Ok(());
        }
        let pairs = split_on_vec(&content, ',');
        let mut i: usize = 0;
        let ghost s0 = self.states();
        while i < pairs.len()
            invariant
                i <= pairs@.len(),
                self.wf(),
                self.states() == apply_pairs(s0, views(pairs@).take(i as int)),
            decreases pairs.len() - i,
        {
            let ghost pv = views(pairs@).take(i + 1);
            assert(pv.drop_last() =~= views(pairs@).take(i as int));
            assert(pv.last() == pairs@[i as int]@);
            let parts = split_on_vec(&pairs[i], ':');
            if parts.len() == 2 {
                let key = trim_char_vec(&trim_vec(&parts[0]), '"');
                let value = trim_vec(&parts[1]);
                match feature_named(&key) {
                    Some(f) => match parse_bool_chars(&value) {
                        Some(on) => self.set(f, on),
                        None => {},
                    },
                    None => {},
                }
            }
            i += 1;
        }
        assert(views(pairs@).take(pairs@.len() as int) =~= views(pairs@));
        Ok(())
    }

    /// The report of the switches: those on, then those off, by name.
    pub fn summary(&self) -> (r: String)
        requires
            self.wf(),
        ensures
            r@ == flags_summary(self.states()),
    {
        let enabled = self.enabled_features();
        let disabled = self.disabled_features();
        let mut out: Vec<char> = Vec::new();
        append_str(&mut out, "功能开关状态:\n启用的功能 (");
        crate::text::append_slice(&mut out, &crate::num::decimal_vec(enabled.len() as u64));
        append_str(&mut out, "):\n");
        crate::text::append_slice(&mut out, &name_lines(&enabled));
        append_str(&mut out, "\n\n禁用的功能 (");
        crate::text::append_slice(&mut out, &crate::num::decimal_vec(disabled.len() as u64));
        append_str(&mut out, "):\n");
        crate::text::append_slice(&mut out, &name_lines(&disabled));
        string_of(&out)
    }
}

/// The name shown for a feature.
pub open spec fn display_name_spec(f: Feature) -> Seq<char> {
    match f {
        Feature::ProjectManagement => "项目管理"@,
        Feature::History => "历史记录"@,
        Feature::Search => "搜索功能"@,
        Feature::BatchTranslation => "批量翻译"@,
        Feature::UserAuthentication => "用户认证"@,
        Feature::ThemeSwitching => "主题切换"@,
        Feature::FileUpload => "文件上传"@,
        Feature::OfflineMode => "离线模式"@,
        Feature::PwaSupport => "PWA支持"@,
        Feature::KeyboardShortcuts => "键盘快捷键"@,
        Feature::PerformanceMonitoring => "性能监控"@,
        Feature::ErrorTracking => "错误追踪"@,
        Feature::AutoSave => "自动保存"@,
    }
}

/// What a feature does, as it is described.
pub open spec fn description_spec(f: Feature) -> Seq<char> {
    match f {
        Feature::ProjectManagement => "管理翻译项目，组织和分类翻译工作"@,
        Feature::History => "查看和管理翻译历史记录"@,
        Feature::Search => "搜索翻译内容和历史记录"@,
        Feature::BatchTranslation => "批量翻译多个URL或文件"@,
        Feature::UserAuthentication => "用户登录和账户管理"@,
        Feature::ThemeSwitching => "切换应用主题和外观"@,
        Feature::FileUpload => "上传文件进行翻译"@,
        Feature::OfflineMode => "离线模式下的基本功能"@,
        Feature::PwaSupport => "渐进式Web应用支持"@,
        Feature::KeyboardShortcuts => "键盘快捷键操作"@,
        Feature::PerformanceMonitoring => "应用性能监控和分析"@,
        Feature::ErrorTracking => "错误收集和报告"@,
        Feature::AutoSave => "自动保存用户输入和设置"@,
    }
}

/// Each feature sits at its own position.
pub proof fn lemma_feature_position(f: Feature)
    ensures
        0 <= feature_index(f) < FEATURE_COUNT,
        feature_at(feature_index(f)) == f,
{
    match f {
        Feature::ProjectManagement => {},
        Feature::History => {},
        Feature::Search => {},
        Feature::BatchTranslation => {},
        Feature::UserAuthentication => {},
        Feature::ThemeSwitching => {},
        Feature::FileUpload => {},
        Feature::OfflineMode => {},
        Feature::PwaSupport => {},
        Feature::KeyboardShortcuts => {},
        Feature::PerformanceMonitoring => {},
        Feature::ErrorTracking => {},
        Feature::AutoSave => {},
    }
}

/// The states after the settings, in order.
pub open spec fn apply_settings(s: Seq<bool>, settings: Seq<(Feature, bool)>) -> Seq<bool>
    decreases settings.len(),
{
    if settings.len() == 0 {
        s
    } else {
        apply_settings(s, settings.drop_last()).update(feature_index(settings.last().0), settings.last().1)
    }
}

/// The features among the first `k` whose state is `on`, in order.
pub open spec fn features_with(s: Seq<bool>, on: bool, k: int) -> Seq<Feature>
    decreases k,
{
    if k <= 0 {
        seq![]
    } else {
        let r = features_with(s, on, k - 1);
        if s[k - 1] == on { r.push(feature_at(k - 1)) } else { r }
    }
}

/// One item of the exported JSON.
pub open spec fn json_item(f: Feature, on: bool) -> Seq<char> {
    "\""@ + feature_key(f) + "\":"@ + if on { "true"@ } else { "false"@ }
}

/// The items of the first `k` features.
pub open spec fn json_items(s: Seq<bool>, k: int) -> Seq<Seq<char>>
    decreases k,
{
    if k <= 0 { seq![] } else { json_items(s, k - 1).push(json_item(feature_at(k - 1), s[k - 1])) }
}

/// The exported JSON of the states.
pub open spec fn flags_json(s: Seq<bool>) -> Seq<char> {
    seq!['{'] + join(json_items(s, FEATURE_COUNT as int), ","@) + seq!['}']
}

/// The feature whose key is `key` in any case.
pub open spec fn feature_by_key(key: Seq<char>) -> Option<Feature> {
    let l = unicode_lowercase(key);
    if exists|k: int| 0 <= k < FEATURE_COUNT && feature_key(#[trigger] feature_at(k)) == l {
        Some(feature_at(choose|k: int| 0 <= k < FEATURE_COUNT && feature_key(#[trigger] feature_at(k)) == l))
    } else {
        None
    }
}

/// The states after one `key:value` pair.
pub open spec fn apply_pair(s: Seq<bool>, pair: Seq<char>) -> Seq<bool> {
    let parts = split_on(pair, ':');
    if parts.len() == 2 {
        let key = trim_char(trim(parts[0]), '"');
        match (feature_by_key(key), parse_bool(trim(parts[1]))) {
            (Some(f), Some(on)) => s.update(feature_index(f), on),
            _ => s,
        }
    } else {
        s
    }
}

/// The states after the pairs, in order.
pub open spec fn apply_pairs(s: Seq<bool>, pairs: Seq<Seq<char>>) -> Seq<bool>
    decreases pairs.len(),
{
    if pairs.len() == 0 { s } else { apply_pair(apply_pairs(s, pairs.drop_last()), pairs.last()) }
}

/// What reading `json` does to the states: `None` where it is refused.
pub open spec fn json_update(s: Seq<bool>, json: Seq<char>) -> Option<Seq<bool>> {
    if json.len() < 2 || json[0] != '{' || json.last() != '}' {
        None
    } else {
        let content = json.subrange(1, json.len() - 1);
        if content.len() == 0 { Some(s) } else { Some(apply_pairs(s, split_on(content, ','))) }
    }
}

/// Lines `  - name` of the features, joined with line breaks.
pub open spec fn name_lines_spec(fs: Seq<Feature>) -> Seq<char> {
    join(fs.map_values(|f: Feature| "  - "@ + display_name_spec(f)), "\n"@)
}

/// The report of the states.
pub open spec fn flags_summary(s: Seq<bool>) -> Seq<char> {
    let on = features_with(s, true, FEATURE_COUNT as int);
    let off = features_with(s, false, FEATURE_COUNT as int);
    "功能开关状态:\n启用的功能 ("@ + crate::num::decimal(on.len()) + "):\n"@ + name_lines_spec(on)
        + "\n\n禁用的功能 ("@ + crate::num::decimal(off.len()) + "):\n"@ + name_lines_spec(off)
}

/// The JSON key of a feature.
fn feature_key_exec(f: &Feature) -> (r: &'static str)
    ensures
        r@ == feature_key(*f),
{
    match f {
        Feature::ProjectManagement => "projectmanagement",
        Feature::History => "history",
        Feature::Search => "search",
        Feature::BatchTranslation => "batchtranslation",
        Feature::UserAuthentication => "userauthentication",
        Feature::ThemeSwitching => "themeswitching",
        Feature::FileUpload => "fileupload",
        Feature::OfflineMode => "offlinemode",
        Feature::PwaSupport => "pwasupport",
        Feature::KeyboardShortcuts => "keyboardshortcuts",
        Feature::PerformanceMonitoring => "performancemonitoring",
        Feature::ErrorTracking => "errortracking",
        Feature::AutoSave => "autosave",
    }
}

/// The feature named `name` in any case (`feature_by_key`).
pub fn feature_named(name: &[char]) -> (r: Option<Feature>)
    ensures
        r == feature_by_key(name@),
{
    let l = lowercase_vec(name);
    let mut k: usize = 0;
    while k < FEATURE_COUNT
        invariant
            k <= FEATURE_COUNT,
            l@ == unicode_lowercase(name@),
            forall|j: int| 0 <= j < k ==> feature_key(#[trigger] feature_at(j)) != l@,
        decreases FEATURE_COUNT - k,
    {
        let f = Feature::at(k);
        if eq_chars(&chars_of(feature_key_exec(&f)), &l) {
            proof { lemma_feature_key_injective(k as int); }
            return Some(f);
        }
        k += 1;
    }
    None
}

/// Distinct features have distinct keys.
proof fn lemma_feature_key_injective(k: int)
    requires
        0 <= k < FEATURE_COUNT,
    ensures
        forall|j: int| 0 <= j < FEATURE_COUNT && feature_key(#[trigger] feature_at(j)) == feature_key(feature_at(k)) ==> j == k,
{
    assert forall|j: int| 0 <= j < FEATURE_COUNT && feature_key(#[trigger] feature_at(j)) == feature_key(feature_at(k)) implies j == k by {
        if j != k {
            lemma_keys_differ(j, k);
        }
    }
}

proof fn lemma_keys_differ(j: int, k: int)
    requires
        0 <= j < FEATURE_COUNT,
        0 <= k < FEATURE_COUNT,
        j != k,
    ensures
        feature_key(feature_at(j)) != feature_key(feature_at(k)),
{
    reveal_strlit("projectmanagement"); reveal_strlit("history"); reveal_strlit("search");
    reveal_strlit("batchtranslation"); reveal_strlit("userauthentication"); reveal_strlit("themeswitching");
    reveal_strlit("fileupload"); reveal_strlit("offlinemode"); reveal_strlit("pwasupport");
    reveal_strlit("keyboardshortcuts"); reveal_strlit("performancemonitoring"); reveal_strlit("errortracking");
    reveal_strlit("autosave");
    let a = feature_key(feature_at(j));
    let b = feature_key(feature_at(k));
    if a.len() == b.len() {
        assert(a[0] != b[0] || a[1] != b[1] || a[2] != b[2]);
    }
}

/// `name_lines_spec`.
fn name_lines(fs: &Vec<Feature>) -> (r: Vec<char>)
    ensures
        r@ == name_lines_spec(fs@),
{
    let mut items: Vec<Vec<char>> = Vec::new();
    let mut i: usize = 0;
    while i < fs.len()
        invariant
            i <= fs@.len(),
            views(items@) == fs@.take(i as int).map_values(|f: Feature| "  - "@ + display_name_spec(f)),
        decreases fs.len() - i,
    {
        let mut item: Vec<char> = Vec::new();
        append_str(&mut item, "  - ");
        append_str(&mut item, fs[i].display_name());
        let ghost i0 = views(items@);
        assert(item@ == "  - "@ + display_name_spec(fs@[i as int]));
        items.push(item);
        assert(views(items@) =~= i0.push("  - "@ + display_name_spec(fs@[i as int])));
        assert(fs@.take(i + 1) =~= fs@.take(i as int).push(fs@[i as int]));
        assert(views(items@) =~= fs@.take(i + 1).map_values(|f: Feature| "  - "@ + display_name_spec(f)));
        i += 1;
    }
    assert(fs@.take(fs@.len() as int) =~= fs@);
    join_vec(&items, &chars_of("\n"))
}

/// The switches after `f` is switched over.
pub open spec fn toggled(s: Seq<bool>, f: Feature) -> Seq<bool> {
    s.update(feature_index(f), !s[feature_index(f)])
}

/// Switching a feature over twice gives back the switches it started from.
pub proof fn law_toggle_twice(s: Seq<bool>, f: Feature)
    requires
        s.len() == FEATURE_COUNT,
    ensures
        toggled(toggled(s, f), f) == s,
{
    lemma_feature_position(f);
    assert(toggled(toggled(s, f), f) =~= s);
}

/// Every feature is either on or off: among the first `k` features, those on
/// and those off number `k` together.
pub proof fn law_enabled_and_disabled_cover_all(s: Seq<bool>, k: int)
    requires
        0 <= k <= s.len(),
    ensures
        features_with(s, true, k).len() + features_with(s, false, k).len() == k,
    decreases k,
{
    if k > 0 {
        law_enabled_and_disabled_cover_all(s, k - 1);
    }
}

/// The exported JSON of any switches is accepted when it is read back.
pub proof fn law_exported_json_is_accepted(current: Seq<bool>, exported: Seq<bool>)
    ensures
        json_update(current, flags_json(exported)) is Some,
{
    let j = flags_json(exported);
    let body = join(json_items(exported, FEATURE_COUNT as int), ","@);
    assert(j == seq!['{'] + body + seq!['}']);
    assert(j[0] == '{');
    assert(j.last() == '}');
}

/// The keys are non-empty and hold no `:`, `,` or `"`.
proof fn lemma_key_chars(f: Feature)
    ensures
        feature_key(f).len() > 0,
        forall|i: int| 0 <= i < feature_key(f).len() ==> {
            let c = #[trigger] feature_key(f)[i];
            c != ':' && c != ',' && c != '"'
        },
{
    reveal_strlit("projectmanagement");
    reveal_strlit("history");
    reveal_strlit("search");
    reveal_strlit("batchtranslation");
    reveal_strlit("userauthentication");
    reveal_strlit("themeswitching");
    reveal_strlit("fileupload");
    reveal_strlit("offlinemode");
    reveal_strlit("pwasupport");
    reveal_strlit("keyboardshortcuts");
    reveal_strlit("performancemonitoring");
    reveal_strlit("errortracking");
    reveal_strlit("autosave");
}

/// Different features have different keys.
proof fn lemma_keys_distinct(f: Feature, g: Feature)
    requires
        feature_key(f) == feature_key(g),
    ensures
        f == g,
{
    lemma_feature_position(f);
    lemma_feature_position(g);
    if feature_index(f) != feature_index(g) {
        lemma_keys_differ(feature_index(f), feature_index(g));
    }
}

/// Positions and features correspond.
proof fn lemma_position_feature(k: int)
    requires
        0 <= k < FEATURE_COUNT,
    ensures
        feature_index(feature_at(k)) == k,
{
}

proof fn lemma_feature_by_key(f: Feature)
    requires
        unicode_lowercase(feature_key(f)) == feature_key(f),
    ensures
        feature_by_key(feature_key(f)) == Some(f),
{
    lemma_feature_position(f);
    let k0 = feature_index(f);
    assert(feature_key(feature_at(k0)) == feature_key(f));
    let k = choose|k: int| 0 <= k < FEATURE_COUNT && feature_key(#[trigger] feature_at(k)) == feature_key(f);
    lemma_keys_distinct(feature_at(k), f);
}

/// What reading one exported item does: it sets its feature.
proof fn lemma_read_item(u: Seq<bool>, f: Feature, on: bool)
    requires
        unicode_lowercase(feature_key(f)) == feature_key(f),
        !unicode_whitespace('"'),
        !unicode_whitespace('t'),
        !unicode_whitespace('f'),
        !unicode_whitespace('e'),
    ensures
        apply_pair(u, json_item(f, on)) == u.update(feature_index(f), on),
        !json_item(f, on).contains(','),
{
    reveal_strlit("\"");
    reveal_strlit("\":");
    reveal_strlit("true");
    reveal_strlit("false");
    lemma_key_chars(f);
    let key = feature_key(f);
    let val: Seq<char> = if on { "true"@ } else { "false"@ };
    let lhs = seq!['"'] + key + seq!['"'];
    let item = json_item(f, on);
    assert(item =~= lhs + seq![':'] + val);
    assert(!lhs.contains(':')) by {
        if lhs.contains(':') {
            let i = choose|i: int| 0 <= i < lhs.len() && lhs[i] == ':';
            assert(key[i - 1] == lhs[i]);
        }
    }
    assert(!val.contains(':'));
    lemma_split_on_concat(lhs, val, ':');
    lemma_split_on_absent(lhs, ':');
    lemma_split_on_absent(val, ':');
    let parts = split_on(item, ':');
    assert(parts =~= seq![lhs, val]);
    // The key side: no whitespace to trim, then one quote off each end.
    assert(lhs[0] == '"' && lhs.last() == '"');
    assert(strip_start(lhs, ws_pred()) == lhs);
    assert(strip_end(lhs, ws_pred()) == lhs);
    assert(trim(lhs) == lhs);
    let d = lhs.drop_first();
    assert(d =~= key + seq!['"']);
    assert(d[0] == key[0]);
    assert(strip_start(d, eq_pred('"')) == d);
    assert(strip_start(lhs, eq_pred('"')) == d);
    assert(d.last() == '"');
    assert(d.drop_last() =~= key);
    assert(key.last() == key[key.len() - 1]);
    assert(strip_end(key, eq_pred('"')) == key);
    assert(strip_end(d, eq_pred('"')) == key);
    assert(trim_char(trim(lhs), '"') == key);
    // The value side.
    assert(val[0] == 't' || val[0] == 'f');
    assert(val.last() == 'e');
    assert(strip_start(val, ws_pred()) == val);
    assert(strip_end(val, ws_pred()) == val);
    assert(parse_bool(trim(val)) == Some(on));
    lemma_feature_by_key(f);
    assert(!item.contains(',')) by {
        if item.contains(',') {
            let i = choose|i: int| 0 <= i < item.len() && item[i] == ',';
            if 1 <= i < 1 + key.len() {
                assert(key[i - 1] == item[i]);
            }
        }
    }
}

proof fn lemma_json_items_shape(s: Seq<bool>, k: int)
    requires
        0 <= k,
    ensures
        json_items(s, k).len() == k,
        forall|i: int| 0 <= i < k ==> #[trigger] json_items(s, k)[i] == json_item(feature_at(i), s[i]),
    decreases k,
{
    if k > 0 {
        lemma_json_items_shape(s, k - 1);
        assert forall|i: int| 0 <= i < k implies #[trigger] json_items(s, k)[i] == json_item(feature_at(i), s[i]) by {
            if i < k - 1 {
                assert(json_items(s, k)[i] == json_items(s, k - 1)[i]);
            }
        }
    }
}

proof fn lemma_read_items(t: Seq<bool>, s: Seq<bool>, k: int)
    requires
        t.len() == FEATURE_COUNT,
        0 <= k <= FEATURE_COUNT,
        forall|f: Feature| #[trigger] unicode_lowercase(feature_key(f)) == feature_key(f),
        !unicode_whitespace('"'),
        !unicode_whitespace('t'),
        !unicode_whitespace('f'),
        !unicode_whitespace('e'),
    ensures
        apply_pairs(t, json_items(s, k)) == Seq::new(FEATURE_COUNT as nat, |i: int| if i < k { s[i] } else { t[i] }),
    decreases k,
{
    if k == 0 {
        assert(apply_pairs(t, json_items(s, 0)) =~= Seq::new(FEATURE_COUNT as nat, |i: int| if i < 0 { s[i] } else { t[i] }));
    } else {
        lemma_read_items(t, s, k - 1);
        let items = json_items(s, k);
        assert(items.drop_last() =~= json_items(s, k - 1));
        assert(items.last() == json_item(feature_at(k - 1), s[k - 1]));
        let u = apply_pairs(t, json_items(s, k - 1));
        lemma_read_item(u, feature_at(k - 1), s[k - 1]);
        lemma_position_feature(k - 1);
        assert(u.update(k - 1, s[k - 1]) =~= Seq::new(FEATURE_COUNT as nat, |i: int| if i < k { s[i] } else { t[i] }));
    }
}

/// Lower-casing leaves each key as it is: the keys are ASCII lowercase.
proof fn lemma_key_lowercase(f: Feature)
    ensures
        unicode_lowercase(feature_key(f)) == feature_key(f),
{
    reveal(unicode_lowercase);
    reveal_strlit("projectmanagement");
    reveal_strlit("history");
    reveal_strlit("search");
    reveal_strlit("batchtranslation");
    reveal_strlit("userauthentication");
    reveal_strlit("themeswitching");
    reveal_strlit("fileupload");
    reveal_strlit("offlinemode");
    reveal_strlit("pwasupport");
    reveal_strlit("keyboardshortcuts");
    reveal_strlit("performancemonitoring");
    reveal_strlit("errortracking");
    reveal_strlit("autosave");
    let k = feature_key(f);
    assert(is_ascii_text(k));
    assert(k.map_values(|c: char| ascii_lower(c)) =~= k);
}

/// Reading back the exported JSON of any switches gives those switches,
/// whatever the switches were before.
pub proof fn law_exported_json_read_back(current: Seq<bool>, exported: Seq<bool>)
    requires
        current.len() == FEATURE_COUNT,
        exported.len() == FEATURE_COUNT,
    ensures
        json_update(current, flags_json(exported)) == Some(exported),
{
    assert forall|f: Feature| #[trigger] unicode_lowercase(feature_key(f)) == feature_key(f) by {
        lemma_key_lowercase(f);
    }
    assert(!unicode_whitespace('"') && !unicode_whitespace('t') && !unicode_whitespace('f') && !unicode_whitespace('e')) by {
        reveal(unicode_whitespace);
    }
    reveal_strlit(",");
    let items = json_items(exported, FEATURE_COUNT as int);
    lemma_json_items_shape(exported, FEATURE_COUNT as int);
    assert(","@ =~= seq![',']);
    let body = join(items, seq![',']);
    let j = flags_json(exported);
    assert(j =~= seq!['{'] + body + seq!['}']);
    assert(j.subrange(1, j.len() - 1) =~= body);
    assert forall|i: int| 0 <= i < items.len() implies !(#[trigger] items[i]).contains(',') by {
        lemma_read_item(current, feature_at(i), exported[i]);
    }
    lemma_split_join(items, ',');
    assert(body.len() > 0) by {
        assert(items.drop_last().len() >= 1);
        assert(body == join(items.drop_last(), seq![',']) + seq![','] + items.last());
    }
    lemma_read_items(current, exported, FEATURE_COUNT as int);
    assert(Seq::new(FEATURE_COUNT as nat, |i: int| if i < FEATURE_COUNT { exported[i] } else { current[i] }) =~= exported);
}

} // verus!
