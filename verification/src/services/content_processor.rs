//! Keeping code and other technical content out of a translation: each
//! protected piece is swapped for a placeholder before translating and put
//! back afterwards.

use vstd::prelude::*;
use crate::ids::{is_hyphenated_uuid, is_simple_uuid, new_uuid_simple, new_uuid_string};
use crate::num::{decimal, decimal_vec};
use crate::text::{
    append_slice, append_str, chars_of, join, join_vec, replace, replace_vec, string_of, views,
    find_next, lemma_next_match_facts, next_match, slice_vec, trim, trim_vec, contains, has_match,
    starts_with, ends_with, starts_with_vec, ends_with_vec, utf8_len, utf8_len_upto, count_char, count_char_vec,
    filter_chars, filter_seqs, split_ws, split_ws_vec, lines, lines_vec, keep_views, is_numeric, is_alphabetic,
    is_alphanumeric, unicode_numeric, unicode_alphabetic, unicode_alphanumeric,
    char_index_at, char_index_at_wide, utf8_prefix_len, lemma_utf8_len_prefix_mono, lemma_utf8_prefix_strict,
    lemma_count_char_concat, lemma_count_char_absent, lemma_replace_count, is_match_at, lemma_utf8_len_bound,
};

verus! {

/// A protected piece of content.
#[derive(Debug, Clone)]
pub struct CodeBlock {
    pub id: String,
    pub content: String,
    pub language: Option<String>,
    pub block_type: CodeBlockType,
}

/// What a protected piece is.
#[derive(Debug, Clone, Copy, PartialEq, Eq, Structural)]
pub enum CodeBlockType {
    FencedCode,
    InlineCode,
    HtmlCode,
    PreFormatted,
    ScriptTag,
    StyleTag,
    ApiEndpoint,
    FilePath,
    EnvVariable,
    VersionNumber,
    FunctionName,
    ConfigKey,
    CommandLine,
    JsonData,
    SqlQuery,
    RegexPattern,
    HtmlTag,
    MarkdownLink,
    TechnicalTerm,
}

/// A protected piece as the contracts see it: placeholder, content,
/// language and type.
pub type BlockView = (Seq<char>, Seq<char>, Option<Seq<char>>, CodeBlockType);

/// The view of an optional string.
pub open spec fn opt_chars(o: Option<String>) -> Option<Seq<char>> {
    match o {
        Some(s) => Some(s@),
        None => None,
    }
}

/// The view of one stored piece.
pub open spec fn block_view(p: (String, CodeBlock)) -> BlockView {
    (p.0@, p.1.content@, opt_chars(p.1.language), p.1.block_type)
}

/// The views of the stored pieces, in the order they were stored.
pub open spec fn blocks_view(v: Seq<(String, CodeBlock)>) -> Seq<BlockView> {
    v.map_values(|p: (String, CodeBlock)| block_view(p))
}

/// The index of the piece stored under `key`.
pub open spec fn find_key(bs: Seq<BlockView>, key: Seq<char>) -> Option<int>
    decreases bs.len(),
{
    if bs.len() == 0 {
        None
    } else {
        match find_key(bs.drop_last(), key) {
            Some(i) => Some(i),
            None => if bs.last().0 == key { Some(bs.len() - 1) } else { None },
        }
    }
}

/// Storing `b` under its placeholder: it replaces the piece stored under the
/// same placeholder, or else is added at the end (`HashMap::insert`, in the
/// order of first insertion).
pub open spec fn insert_block(bs: Seq<BlockView>, b: BlockView) -> Seq<BlockView> {
    match find_key(bs, b.0) {
        Some(i) => bs.update(i, b),
        None => bs.push(b),
    }
}

/// Putting the pieces back: each placeholder, from the last stored to the
/// first, replaced by its content. (The last stored first, so that a piece
/// protected inside another comes back too.)
pub open spec fn restore_spec(bs: Seq<BlockView>, text: Seq<char>) -> Seq<char>
    decreases bs.len(),
{
    if bs.len() == 0 {
        text
    } else {
        restore_spec(bs.drop_last(), replace(text, bs.last().0, bs.last().1))
    }
}

/// A placeholder: `__CODE_BLOCK_`, a UUID in simple form, `__`.
pub open spec fn is_placeholder(p: Seq<char>) -> bool {
    p.len() == 47 && p.take(13) == "__CODE_BLOCK_"@ && is_simple_uuid(p.subrange(13, 45))
        && p.skip(45) == "__"@
}

/// The content processor: the pieces it protected, under their placeholders.
#[derive(Debug, Clone)]
pub struct ContentProcessor {
    preserved_blocks: Vec<(String, CodeBlock)>,
}

impl ContentProcessor {
    /// The protected pieces.
    pub closed spec fn blocks(&self) -> Seq<BlockView> {
        blocks_view(self.preserved_blocks@)
    }

    /// Every piece is stored under a placeholder, has a hyphenated UUID as
    /// its id, and placeholders are not repeated.
    pub closed spec fn wf(&self) -> bool {
        &&& forall|i: int| 0 <= i < self.preserved_blocks@.len() ==> is_hyphenated_uuid(
            (#[trigger] self.preserved_blocks@[i]).1.id@,
        ) && is_placeholder(self.preserved_blocks@[i].0@)
        &&& forall|i: int, j: int| 0 <= i < j < self.preserved_blocks@.len()
            ==> (#[trigger] self.preserved_blocks@[i]).0@ != (#[trigger] self.preserved_blocks@[j]).0@
    }

    /// A processor with nothing protected.
    pub fn new() -> (r: ContentProcessor)
        ensures
            r.wf(),
            r.blocks() == Seq::<BlockView>::empty(),
    {
        let r = ContentProcessor { preserved_blocks: Vec::new() };
        assert(r.blocks() =~= Seq::<BlockView>::empty());
        r
    }

    /// Forgets every protected piece.
    pub fn clear(&mut self)
        ensures
            final(self).wf(),
            final(self).blocks() == Seq::<BlockView>::empty(),
    {
        self.preserved_blocks = Vec::new();
        assert(self.blocks() =~= Seq::<BlockView>::empty());
    }

    /// Puts the protected pieces back into `content` (`restore_spec`).
    pub fn restore_code_blocks(&self, content: &str) -> (r: String)
        ensures
            r@ == restore_spec(self.blocks(), content@),
    {
        let mut text = chars_of(content);
        let n = self.preserved_blocks.len();
        let mut i = n;
        let ghost bs = self.blocks();
        assert(bs.take(n as int) =~= bs);
        while i > 0
            invariant
                i <= n,
                n == self.preserved_blocks@.len(),
                bs == self.blocks(),
                restore_spec(bs, content@) == restore_spec(bs.take(i as int), text@),
            decreases i,
        {
            let k = i - 1;
            let key = chars_of(self.preserved_blocks[k].0.as_str());
            let val = chars_of(self.preserved_blocks[k].1.content.as_str());
            assert(bs.take(i as int).drop_last() =~= bs.take(k as int));
            assert(bs.take(i as int).last() == block_view(self.preserved_blocks@[k as int]));
            if key.len() > 0 {
                text = replace_vec(&text, &key, &val);
            }
            i = k;
        }
        string_of(&text)
    }
}

/// The index of the piece stored under `key`, as `find_key` states it.
proof fn lemma_find_key_facts(bs: Seq<BlockView>, key: Seq<char>)
    ensures
        match find_key(bs, key) {
            Some(i) => 0 <= i < bs.len() && bs[i].0 == key,
            None => forall|j: int| 0 <= j < bs.len() ==> bs[j].0 != key,
        },
    decreases bs.len(),
{
    if bs.len() > 0 {
        lemma_find_key_facts(bs.drop_last(), key);
        assert forall|j: int| 0 <= j < bs.len() - 1 implies bs.drop_last()[j] == bs[j] by {}
    }
}

proof fn lemma_find_key_distinct(bs: Seq<BlockView>, key: Seq<char>, i: int)
    requires
        0 <= i < bs.len(),
        bs[i].0 == key,
        forall|a: int, b: int| 0 <= a < b < bs.len() ==> bs[a].0 != bs[b].0,
    ensures
        find_key(bs, key) == Some(i),
    decreases bs.len(),
{
    lemma_find_key_facts(bs, key);
    if i < bs.len() - 1 {
        lemma_find_key_distinct(bs.drop_last(), key, i);
    } else {
        lemma_find_key_facts(bs.drop_last(), key);
        match find_key(bs.drop_last(), key) {
            Some(j) => {
                assert(bs.drop_last()[j] == bs[j]);
            },
            None => {},
        }
    }
}

impl ContentProcessor {
    /// A fresh placeholder (`__CODE_BLOCK_`, a random UUID in simple form,
    /// `__`).
    fn create_placeholder(&self) -> (r: String)
        ensures
            is_placeholder(r@),
    {
        let id = new_uuid_simple();
        let mut v: Vec<char> = Vec::new();
        append_str(&mut v, "__CODE_BLOCK_");
        append_str(&mut v, id.as_str());
        append_str(&mut v, "__");
        proof {
            reveal_strlit("__CODE_BLOCK_");
            reveal_strlit("__");
            assert(v@.take(13) =~= "__CODE_BLOCK_"@);
            assert(v@.subrange(13, 45) =~= id@);
            assert(v@.skip(45) =~= "__"@);
        }
        string_of(&v)
    }

    /// Stores a piece under the placeholder `key` (`insert_block`).
    fn store(&mut self, key: String, content: String, language: Option<String>, block_type: CodeBlockType)
        requires
            old(self).wf(),
            is_placeholder(key@),
        ensures
            final(self).wf(),
            final(self).blocks() == insert_block(
                old(self).blocks(),
                (key@, content@, opt_chars(language), block_type),
            ),
    {
        let ghost bs = self.blocks();
        let ghost b: BlockView = (key@, content@, opt_chars(language), block_type);
        let block = CodeBlock { id: new_uuid_string(), content, language, block_type };
        let mut i: usize = 0;
        while i < self.preserved_blocks.len() && !(self.preserved_blocks[i].0 == key)
            invariant
                i <= self.preserved_blocks@.len(),
                bs == self.blocks(),
                self.wf(),
                forall|j: int| 0 <= j < i ==> self.preserved_blocks@[j].0@ != key@,
            decreases self.preserved_blocks.len() - i,
        {
            i += 1;
        }
        proof { lemma_find_key_facts(bs, key@); }
        if i < self.preserved_blocks.len() {
            proof {
                assert(bs[i as int].0 == key@);
                lemma_find_key_distinct(bs, key@, i as int);
            }
            self.preserved_blocks.set(i, (key, block));
            assert(self.blocks() =~= bs.update(i as int, b));
        } else {
            proof {
                match find_key(bs, key@) {
                    Some(j) => { assert(bs[j].0 == self.preserved_blocks@[j].0@); },
                    None => {},
                }
            }
            self.preserved_blocks.push((key, block));
            assert(self.blocks() =~= bs.push(b));
        }
    }
}

// ---------------------------------------------------------------------------
// Statistics.
// ---------------------------------------------------------------------------

/// How many pieces of each type are protected.
#[derive(Debug, Clone)]
pub struct CodeProtectionStats {
    pub fenced_blocks: usize,
    pub inline_blocks: usize,
    pub html_code_blocks: usize,
    pub pre_blocks: usize,
    pub script_blocks: usize,
    pub style_blocks: usize,
    pub api_endpoints: usize,
    pub file_paths: usize,
    pub env_variables: usize,
    pub version_numbers: usize,
    pub function_names: usize,
    pub config_keys: usize,
    pub command_lines: usize,
    pub json_data: usize,
    pub sql_queries: usize,
    pub regex_patterns: usize,
    pub html_tags: usize,
    pub markdown_links: usize,
    pub technical_terms: usize,
}

/// The counts in the order of the summary, with their labels.
pub open spec fn stat_fields(s: CodeProtectionStats) -> Seq<(Seq<char>, nat)> {
    seq![
        ("代码块"@, s.fenced_blocks as nat),
        ("行内代码"@, s.inline_blocks as nat),
        ("HTML代码"@, s.html_code_blocks as nat),
        ("预格式化"@, s.pre_blocks as nat),
        ("脚本"@, s.script_blocks as nat),
        ("样式"@, s.style_blocks as nat),
        ("API端点"@, s.api_endpoints as nat),
        ("文件路径"@, s.file_paths as nat),
        ("环境变量"@, s.env_variables as nat),
        ("版本号"@, s.version_numbers as nat),
        ("函数名"@, s.function_names as nat),
        ("配置键"@, s.config_keys as nat),
        ("命令行"@, s.command_lines as nat),
        ("JSON数据"@, s.json_data as nat),
        ("SQL查询"@, s.sql_queries as nat),
        ("正则表达式"@, s.regex_patterns as nat),
        ("HTML标签"@, s.html_tags as nat),
        ("Markdown链接"@, s.markdown_links as nat),
        ("技术术语"@, s.technical_terms as nat),
    ]
}

/// The sum of the counts.
pub open spec fn stats_total(s: CodeProtectionStats) -> nat {
    (s.fenced_blocks + s.inline_blocks + s.html_code_blocks + s.pre_blocks + s.script_blocks
        + s.style_blocks + s.api_endpoints + s.file_paths + s.env_variables + s.version_numbers
        + s.function_names + s.config_keys + s.command_lines + s.json_data + s.sql_queries
        + s.regex_patterns + s.html_tags + s.markdown_links + s.technical_terms) as nat
}

/// The `label: count` parts of the non-zero counts, in order.
pub open spec fn summary_parts(fs: Seq<(Seq<char>, nat)>) -> Seq<Seq<char>>
    decreases fs.len(),
{
    if fs.len() == 0 {
        seq![]
    } else {
        let r = summary_parts(fs.drop_last());
        if fs.last().1 > 0 { r.push(fs.last().0 + ": "@ + decimal(fs.last().1)) } else { r }
    }
}

/// The summary line of a set of counts.
pub open spec fn stats_summary(s: CodeProtectionStats) -> Seq<char> {
    if stats_total(s) == 0 {
        "未检测到需要保护的内容"@
    } else {
        "已保护 "@ + decimal(stats_total(s)) + " 个内容项 ("@ + join(summary_parts(stat_fields(s)), ", "@) + ")"@
    }
}

/// How many of the pieces have type `k`.
pub open spec fn count_kind(bs: Seq<BlockView>, k: CodeBlockType) -> nat
    decreases bs.len(),
{
    if bs.len() == 0 {
        0
    } else {
        count_kind(bs.drop_last(), k) + if bs.last().3 == k { 1nat } else { 0nat }
    }
}

impl Default for CodeProtectionStats {
    fn default() -> (r: Self)
        ensures
            stats_total(r) == 0,
    {
        CodeProtectionStats {
            fenced_blocks: 0,
            inline_blocks: 0,
            html_code_blocks: 0,
            pre_blocks: 0,
            script_blocks: 0,
            style_blocks: 0,
            api_endpoints: 0,
            file_paths: 0,
            env_variables: 0,
            version_numbers: 0,
            function_names: 0,
            config_keys: 0,
            command_lines: 0,
            json_data: 0,
            sql_queries: 0,
            regex_patterns: 0,
            html_tags: 0,
            markdown_links: 0,
            technical_terms: 0,
        }
    }
}

impl CodeProtectionStats {
    /// The sum of the counts.
    pub fn total_blocks(&self) -> (r: usize)
        requires
            stats_total(*self) <= usize::MAX,
        ensures
            r == stats_total(*self),
    {
        self.fenced_blocks + self.inline_blocks + self.html_code_blocks + self.pre_blocks + self.script_blocks
            + self.style_blocks + self.api_endpoints + self.file_paths + self.env_variables + self.version_numbers
            + self.function_names + self.config_keys + self.command_lines + self.json_data + self.sql_queries
            + self.regex_patterns + self.html_tags + self.markdown_links + self.technical_terms
    }

    /// `已保护 N 个内容项 (label: n, ...)`, or that nothing was protected.
    pub fn get_summary(&self) -> (r: String)
        requires
            stats_total(*self) <= usize::MAX,
        ensures
            r@ == stats_summary(*self),
    {
        let total = self.total_blocks();
        if total == 0 {
            return "未检测到需要保护的内容".to_owned();
        }
        let counts: [usize; 19] = [
            self.fenced_blocks, self.inline_blocks, self.html_code_blocks, self.pre_blocks,
            self.script_blocks, self.style_blocks, self.api_endpoints, self.file_paths,
            self.env_variables, self.version_numbers, self.function_names, self.config_keys,
            self.command_lines, self.json_data, self.sql_queries, self.regex_patterns,
            self.html_tags, self.markdown_links, self.technical_terms,
        ];
        let labels: [&str; 19] = [
            "代码块", "行内代码", "HTML代码", "预格式化", "脚本", "样式", "API端点", "文件路径",
            "环境变量", "版本号", "函数名", "配置键", "命令行", "JSON数据", "SQL查询", "正则表达式",
            "HTML标签", "Markdown链接", "技术术语",
        ];
        let ghost fs = stat_fields(*self);
        assert(forall|k: int| 0 <= k < 19 ==> #[trigger] fs[k] == (labels@[k]@, counts@[k] as nat));
        let mut parts: Vec<Vec<char>> = Vec::new();
        let mut k: usize = 0;
        while k < 19
            invariant
                k <= 19,
                fs == stat_fields(*self),
                fs.len() == 19,
                labels@.len() == 19,
                counts@.len() == 19,
                forall|j: int| 0 <= j < 19 ==> #[trigger] fs[j] == (labels@[j]@, counts@[j] as nat),
                views(parts@) == summary_parts(fs.take(k as int)),
            decreases 19 - k,
        {
            assert(fs.take(k + 1).drop_last() =~= fs.take(k as int));
            assert(fs.take(k + 1).last() == fs[k as int]);
            if counts[k] > 0 {
                let mut p: Vec<char> = Vec::new();
                append_str(&mut p, labels[k]);
                append_str(&mut p, ": ");
                append_slice(&mut p, &decimal_vec(counts[k] as u64));
                let ghost p0 = views(parts@);
                parts.push(p);
                assert(views(parts@) =~= p0.push(fs[k as int].0 + ": "@ + decimal(fs[k as int].1)));
            }
            k += 1;
        }
        assert(fs.take(19) =~= fs);
        let joined = join_vec(&parts, &chars_of(", "));
        let mut out: Vec<char> = Vec::new();
        append_str(&mut out, "已保护 ");
        append_slice(&mut out, &decimal_vec(total as u64));
        append_str(&mut out, " 个内容项 (");
        append_slice(&mut out, &joined);
        append_str(&mut out, ")");
        string_of(&out)
    }
}

impl ContentProcessor {
    /// How many protected pieces there are of each type.
    pub fn get_protection_stats(&self) -> (r: CodeProtectionStats)
        ensures
            r.fenced_blocks == count_kind(self.blocks(), CodeBlockType::FencedCode),
            r.inline_blocks == count_kind(self.blocks(), CodeBlockType::InlineCode),
            r.html_code_blocks == count_kind(self.blocks(), CodeBlockType::HtmlCode),
            r.pre_blocks == count_kind(self.blocks(), CodeBlockType::PreFormatted),
            r.script_blocks == count_kind(self.blocks(), CodeBlockType::ScriptTag),
            r.style_blocks == count_kind(self.blocks(), CodeBlockType::StyleTag),
            r.api_endpoints == count_kind(self.blocks(), CodeBlockType::ApiEndpoint),
            r.file_paths == count_kind(self.blocks(), CodeBlockType::FilePath),
            r.env_variables == count_kind(self.blocks(), CodeBlockType::EnvVariable),
            r.version_numbers == count_kind(self.blocks(), CodeBlockType::VersionNumber),
            r.function_names == count_kind(self.blocks(), CodeBlockType::FunctionName),
            r.config_keys == count_kind(self.blocks(), CodeBlockType::ConfigKey),
            r.command_lines == count_kind(self.blocks(), CodeBlockType::CommandLine),
            r.json_data == count_kind(self.blocks(), CodeBlockType::JsonData),
            r.sql_queries == count_kind(self.blocks(), CodeBlockType::SqlQuery),
            r.regex_patterns == count_kind(self.blocks(), CodeBlockType::RegexPattern),
            r.html_tags == count_kind(self.blocks(), CodeBlockType::HtmlTag),
            r.markdown_links == count_kind(self.blocks(), CodeBlockType::MarkdownLink),
            r.technical_terms == count_kind(self.blocks(), CodeBlockType::TechnicalTerm),
            stats_total(r) == self.blocks().len(),
    {
        let mut counts: [usize; 19] = [0; 19];
        let ghost bs = self.blocks();
        let mut i: usize = 0;
        proof { lemma_kinds_sum_zero(counts@, 19); }
        assert(bs.take(0) =~= Seq::<BlockView>::empty());
        while i < self.preserved_blocks.len()
            invariant
                i <= self.preserved_blocks@.len(),
                bs == self.blocks(),
                counts@.len() == 19,
                forall|k: int| 0 <= k < 19 ==> #[trigger] counts@[k] == count_kind(bs.take(i as int), kind_at(k)),
                forall|k: int| 0 <= k < 19 ==> #[trigger] counts@[k] <= i,
                kinds_sum(counts@, 19) == i,
            decreases self.preserved_blocks.len() - i,
        {
            assert(bs.take(i + 1).drop_last() =~= bs.take(i as int));
            assert(bs.take(i + 1).last() == block_view(self.preserved_blocks@[i as int]));
            let k = kind_index(self.preserved_blocks[i].1.block_type);
            let ghost old_counts = counts@;
            counts[k] = counts[k] + 1;
            proof {
                lemma_kinds_sum_bump(old_counts, k as int, 19);
                assert forall|j: int| 0 <= j < 19 implies #[trigger] counts@[j] == count_kind(bs.take(i + 1), kind_at(j)) by {
                    if kind_at(j) == kind_at(k as int) {
                        lemma_kind_at_injective(j, k as int);
                    }
                }
            }
            i += 1;
        }
        assert(bs.take(i as int) =~= bs);
        proof { lemma_kinds_sum_all(counts@); }
        CodeProtectionStats {
            fenced_blocks: counts[0],
            inline_blocks: counts[1],
            html_code_blocks: counts[2],
            pre_blocks: counts[3],
            script_blocks: counts[4],
            style_blocks: counts[5],
            api_endpoints: counts[6],
            file_paths: counts[7],
            env_variables: counts[8],
            version_numbers: counts[9],
            function_names: counts[10],
            config_keys: counts[11],
            command_lines: counts[12],
            json_data: counts[13],
            sql_queries: counts[14],
            regex_patterns: counts[15],
            html_tags: counts[16],
            markdown_links: counts[17],
            technical_terms: counts[18],
        }
    }
}

/// The type counted at position `k` of the statistics.
pub open spec fn kind_at(k: int) -> CodeBlockType {
    if k == 0 { CodeBlockType::FencedCode } else if k == 1 { CodeBlockType::InlineCode }
    else if k == 2 { CodeBlockType::HtmlCode } else if k == 3 { CodeBlockType::PreFormatted }
    else if k == 4 { CodeBlockType::ScriptTag } else if k == 5 { CodeBlockType::StyleTag }
    else if k == 6 { CodeBlockType::ApiEndpoint } else if k == 7 { CodeBlockType::FilePath }
    else if k == 8 { CodeBlockType::EnvVariable } else if k == 9 { CodeBlockType::VersionNumber }
    else if k == 10 { CodeBlockType::FunctionName } else if k == 11 { CodeBlockType::ConfigKey }
    else if k == 12 { CodeBlockType::CommandLine } else if k == 13 { CodeBlockType::JsonData }
    else if k == 14 { CodeBlockType::SqlQuery } else if k == 15 { CodeBlockType::RegexPattern }
    else if k == 16 { CodeBlockType::HtmlTag } else if k == 17 { CodeBlockType::MarkdownLink }
    else { CodeBlockType::TechnicalTerm }
}

/// The position of a type in the statistics.
fn kind_index(t: CodeBlockType) -> (k: usize)
    ensures
        k < 19,
        kind_at(k as int) == t,
{
    match t {
        CodeBlockType::FencedCode => 0,
        CodeBlockType::InlineCode => 1,
        CodeBlockType::HtmlCode => 2,
        CodeBlockType::PreFormatted => 3,
        CodeBlockType::ScriptTag => 4,
        CodeBlockType::StyleTag => 5,
        CodeBlockType::ApiEndpoint => 6,
        CodeBlockType::FilePath => 7,
        CodeBlockType::EnvVariable => 8,
        CodeBlockType::VersionNumber => 9,
        CodeBlockType::FunctionName => 10,
        CodeBlockType::ConfigKey => 11,
        CodeBlockType::CommandLine => 12,
        CodeBlockType::JsonData => 13,
        CodeBlockType::SqlQuery => 14,
        CodeBlockType::RegexPattern => 15,
        CodeBlockType::HtmlTag => 16,
        CodeBlockType::MarkdownLink => 17,
        CodeBlockType::TechnicalTerm => 18,
    }
}

proof fn lemma_kind_at_index(t: CodeBlockType)
    ensures
        exists|k: int| 0 <= k < 19 && kind_at(k) == t,
{
    match t {
        CodeBlockType::FencedCode => assert(kind_at(0) == t),
        CodeBlockType::InlineCode => assert(kind_at(1) == t),
        CodeBlockType::HtmlCode => assert(kind_at(2) == t),
        CodeBlockType::PreFormatted => assert(kind_at(3) == t),
        CodeBlockType::ScriptTag => assert(kind_at(4) == t),
        CodeBlockType::StyleTag => assert(kind_at(5) == t),
        CodeBlockType::ApiEndpoint => assert(kind_at(6) == t),
        CodeBlockType::FilePath => assert(kind_at(7) == t),
        CodeBlockType::EnvVariable => assert(kind_at(8) == t),
        CodeBlockType::VersionNumber => assert(kind_at(9) == t),
        CodeBlockType::FunctionName => assert(kind_at(10) == t),
        CodeBlockType::ConfigKey => assert(kind_at(11) == t),
        CodeBlockType::CommandLine => assert(kind_at(12) == t),
        CodeBlockType::JsonData => assert(kind_at(13) == t),
        CodeBlockType::SqlQuery => assert(kind_at(14) == t),
        CodeBlockType::RegexPattern => assert(kind_at(15) == t),
        CodeBlockType::HtmlTag => assert(kind_at(16) == t),
        CodeBlockType::MarkdownLink => assert(kind_at(17) == t),
        CodeBlockType::TechnicalTerm => assert(kind_at(18) == t),
    }
}

proof fn lemma_kind_at_injective(j: int, k: int)
    requires
        0 <= j < 19,
        0 <= k < 19,
        kind_at(j) == kind_at(k),
    ensures
        j == k,
{
}

/// The sum of the first `n` counts.
pub open spec fn kinds_sum(c: Seq<usize>, n: int) -> nat
    decreases n,
{
    if n <= 0 { 0 } else { kinds_sum(c, n - 1) + c[n - 1] as nat }
}

proof fn lemma_kinds_sum_bump(c: Seq<usize>, k: int, n: int)
    requires
        0 <= k < c.len(),
        0 <= n <= c.len(),
        c[k] < usize::MAX,
    ensures
        kinds_sum(c.update(k, (c[k] + 1) as usize), n) == kinds_sum(c, n) + if k < n { 1nat } else { 0nat },
    decreases n,
{
    if n > 0 {
        lemma_kinds_sum_bump(c, k, n - 1);
    }
}

proof fn lemma_kinds_sum_zero(c: Seq<usize>, n: int)
    requires
        0 <= n <= c.len(),
        forall|k: int| 0 <= k < c.len() ==> c[k] == 0,
    ensures
        kinds_sum(c, n) == 0,
    decreases n,
{
    if n > 0 {
        lemma_kinds_sum_zero(c, n - 1);
    }
}

proof fn lemma_kinds_sum_all(c: Seq<usize>)
    requires
        c.len() == 19,
    ensures
        kinds_sum(c, 19) == c[0] + c[1] + c[2] + c[3] + c[4] + c[5] + c[6] + c[7] + c[8] + c[9] + c[10] + c[11]
            + c[12] + c[13] + c[14] + c[15] + c[16] + c[17] + c[18],
{
    reveal_with_fuel(kinds_sum, 20);
}

// ---------------------------------------------------------------------------
// The passes. Each pass draws fresh placeholders; its contract is stated for
// the placeholders it drew, given as a supply `sup` of which it uses the
// first ones in order (`ph_at(sup, j)` being the `j`-th).
// ---------------------------------------------------------------------------

/// A placeholder used where a supply is too short or holds something else.
pub open spec fn default_placeholder() -> Seq<char> {
    "__CODE_BLOCK_"@ + Seq::new(32, |i: int| '0') + "__"@
}

/// The `j`-th placeholder of a supply.
pub open spec fn ph_at(sup: Seq<Seq<char>>, j: int) -> Seq<char> {
    if 0 <= j < sup.len() && is_placeholder(sup[j]) { sup[j] } else { default_placeholder() }
}

/// Whether every element of a supply is a placeholder.
pub open spec fn all_placeholders(sup: Seq<Seq<char>>) -> bool {
    forall|k: int| 0 <= k < sup.len() ==> is_placeholder(#[trigger] sup[k])
}

/// `t` with `t[a..end]` replaced by `ph`.
pub open spec fn splice(t: Seq<char>, a: int, end: int, ph: Seq<char>) -> Seq<char> {
    t.take(a) + ph + t.skip(end)
}

/// `splice` on character vectors.
fn splice_exec(t: &[char], a: usize, end: usize, ph: &[char]) -> (r: Vec<char>)
    requires
        a <= end <= t@.len(),
    ensures
        r@ == splice(t@, a as int, end as int, ph@),
{
    let mut r = slice_vec(t, 0, a);
    append_slice(&mut r, ph);
    let rest = slice_vec(t, end, t.len());
    append_slice(&mut r, &rest);
    assert(t@.subrange(0, a as int) =~= t@.take(a as int));
    assert(t@.subrange(end as int, t@.len() as int) =~= t@.skip(end as int));
    r
}

/// The fence of a fenced code block.
pub open spec fn fence() -> Seq<char> {
    seq!['`', '`', '`']
}

/// Fenced code blocks from `from` on: each run from a fence to the next
/// fence becomes a placeholder; its language is the rest of the line after
/// the opening fence, where that line goes on past the fence.
pub open spec fn fenced_pass(t: Seq<char>, bs: Seq<BlockView>, sup: Seq<Seq<char>>, j: int, from: int)
    -> (Seq<char>, Seq<BlockView>, int)
    decreases t.len() - from,
{
    match next_match(t, fence(), from) {
        None => (t, bs, j),
        Some(a) => {
            proof { lemma_next_match_facts(t, fence(), from); }
            if a < from || a + 3 > t.len() {
                (t, bs, j)
            } else {
                match next_match(t, fence(), a + 3) {
                    None => fenced_pass(t, bs, sup, j, a + 3),
                    Some(e0) => {
                        proof { lemma_next_match_facts(t, fence(), a + 3); }
                        if e0 < a + 3 || e0 + 3 > t.len() {
                            (t, bs, j)
                        } else {
                            let end = e0 + 3;
                            let fle = match next_match(t, seq!['\n'], a) {
                                Some(nl) => nl - a,
                                None => 3,
                            };
                            let lang = if fle > 3 && a + fle <= t.len() {
                                Some(trim(t.subrange(a + 3, a + fle)))
                            } else {
                                None
                            };
                            let ph = ph_at(sup, j);
                            let b = (ph, t.subrange(a, end), lang, CodeBlockType::FencedCode);
                            fenced_pass(splice(t, a, end, ph), insert_block(bs, b), sup, j + 1, a + ph.len())
                        }
                    },
                }
            }
        },
    }
}

impl ContentProcessor {
    /// Protects fenced code blocks (`fenced_pass`); gives the text and the
    /// placeholders drawn.
    fn protect_fenced_code_blocks(&mut self, text: Vec<char>) -> (r: (Vec<char>, Ghost<Seq<Seq<char>>>))
        requires
            old(self).wf(),
        ensures
            final(self).wf(),
            all_placeholders(r.1@),
            fenced_pass(text@, old(self).blocks(), r.1@, 0, 0) == (r.0@, final(self).blocks(), r.1@.len() as int),
    {
        let ghost t0 = text@;
        let ghost b0 = self.blocks();
        let mut cur = text;
        let mut from: usize = 0;
        let ghost mut used: Seq<Seq<char>> = Seq::empty();
        let pat = vec!['`', '`', '`'];
        let nl = vec!['\n'];
        assert(pat@ =~= fence());
        assert(nl@ =~= seq!['\n']);
        loop
            invariant
                self.wf(),
                t0 == text@,
                b0 == old(self).blocks(),
                pat@ == fence(),
                nl@ == seq!['\n'],
                from <= cur@.len(),
                all_placeholders(used),
                forall|sup: Seq<Seq<char>>| used.len() <= sup.len() && #[trigger] sup.take(used.len() as int) == used ==>
                    fenced_pass(t0, b0, sup, 0, 0) == fenced_pass(cur@, self.blocks(), sup, used.len() as int, from as int),
            decreases cur@.len() - from,
        {
            let ghost t = cur@;
            let ghost bs = self.blocks();
            let ghost j = used.len() as int;
            proof { lemma_next_match_facts(t, fence(), from as int); }
            match find_next(&cur, &pat, from) {
                None => {
                    proof {
                        assert(used.take(used.len() as int) =~= used);
                        assert(fenced_pass(t0, b0, used, 0, 0) == fenced_pass(t, bs, used, j, from as int));
                        assert(fenced_pass(t, bs, used, j, from as int) == (t, bs, j));
                    }
                    return (cur, Ghost(used));
                },
                Some(a) => {
                    let n = cur.len();
                    assert(a + 3 <= n);
                    proof { lemma_next_match_facts(t, fence(), a + 3); }
                    match find_next(&cur, &pat, a + 3) {
                        None => {
                            proof {
                                assert forall|sup: Seq<Seq<char>>| j <= sup.len() && #[trigger] sup.take(j) == used implies
                                    fenced_pass(t0, b0, sup, 0, 0) == fenced_pass(t, bs, sup, j, a + 3) by {
                                    assert(fenced_pass(t, bs, sup, j, from as int) == fenced_pass(t, bs, sup, j, a + 3));
                                }
                            }
                            from = a + 3;
                        },
                        Some(e0) => {
                            assert(e0 + 3 <= n);
                            let end = e0 + 3;
                            proof { lemma_next_match_facts(t, seq!['\n'], a as int); }
                            let fle: usize = match find_next(&cur, &nl, a) {
                                Some(p) => p - a,
                                None => 3,
                            };
                            let lang: Option<String> = if fle > 3 && a + fle <= cur.len() {
                                let l = slice_vec(&cur, a + 3, a + fle);
                                Some(string_of(&trim_vec(&l)))
                            } else {
                                None
                            };
                            let block = slice_vec(&cur, a, end);
                            let ph = self.create_placeholder();
                            let phv = chars_of(ph.as_str());
                            let ghost b: BlockView = (ph@, block@, opt_chars(lang), CodeBlockType::FencedCode);
                            self.store(ph, string_of(&block), lang, CodeBlockType::FencedCode);
                            let next = splice_exec(&cur, a, end, &phv);
                            let ghost used2 = used.push(phv@);
                            proof {
                                assert forall|sup: Seq<Seq<char>>| j + 1 <= sup.len() && #[trigger] sup.take(j + 1) == used2 implies
                                    fenced_pass(t0, b0, sup, 0, 0) == fenced_pass(next@, self.blocks(), sup, j + 1, a + phv@.len()) by {
                                    assert(sup.take(j) =~= used);
                                    assert(sup.take(j + 1)[j] == sup[j]);
                                    assert(ph_at(sup, j) == phv@);
                                }
                                assert forall|k: int| 0 <= k < used2.len() implies is_placeholder(#[trigger] used2[k]) by {
                                    if k < used.len() { assert(used2[k] == used[k]); }
                                }
                            }
                            let nn = next.len();
                            assert(a + phv@.len() <= nn);
                            cur = next;
                            from = a + phv.len();
                            proof { used = used2; }
                        },
                    }
                },
            }
        }
    }
}

/// Inline code from `from` on: a backtick, text without a line break that
/// is not blank, and the next backtick become a placeholder.
pub open spec fn inline_pass(t: Seq<char>, bs: Seq<BlockView>, sup: Seq<Seq<char>>, j: int, from: int)
    -> (Seq<char>, Seq<BlockView>, int)
    decreases t.len() - from,
{
    match next_match(t, seq!['`'], from) {
        None => (t, bs, j),
        Some(a) => {
            proof { lemma_next_match_facts(t, seq!['`'], from); }
            if a < from || a + 1 > t.len() {
                (t, bs, j)
            } else {
                match next_match(t, seq!['`'], a + 1) {
                    None => inline_pass(t, bs, sup, j, a + 1),
                    Some(e0) => {
                        proof { lemma_next_match_facts(t, seq!['`'], a + 1); }
                        if e0 < a + 1 || e0 + 1 > t.len() {
                            (t, bs, j)
                        } else {
                            let end = e0 + 1;
                            let code = t.subrange(a + 1, e0);
                            if !has_match(code, seq!['\n']) && trim(code).len() > 0 {
                                let ph = ph_at(sup, j);
                                let b = (ph, t.subrange(a, end), None, CodeBlockType::InlineCode);
                                inline_pass(splice(t, a, end, ph), insert_block(bs, b), sup, j + 1, a + ph.len())
                            } else {
                                inline_pass(t, bs, sup, j, a + 1)
                            }
                        }
                    },
                }
            }
        },
    }
}

/// The elements `tag` (with its attributes) from `from` on: from `<tag` to
/// the first `</tag>` after the end of the opening tag becomes a
/// placeholder.
pub open spec fn html_tag_pass(
    t: Seq<char>,
    bs: Seq<BlockView>,
    sup: Seq<Seq<char>>,
    j: int,
    from: int,
    tag: Seq<char>,
    kind: CodeBlockType,
    lang: Option<Seq<char>>,
) -> (Seq<char>, Seq<BlockView>, int)
    decreases t.len() - from,
{
    let st = seq!['<'] + tag;
    let et = seq!['<', '/'] + tag + seq!['>'];
    match next_match(t, st, from) {
        None => (t, bs, j),
        Some(a) => {
            proof { lemma_next_match_facts(t, st, from); }
            if a < from || a + st.len() > t.len() {
                (t, bs, j)
            } else {
                match next_match(t, seq!['>'], a) {
                    None => html_tag_pass(t, bs, sup, j, a + st.len(), tag, kind, lang),
                    Some(g) => {
                        proof { lemma_next_match_facts(t, seq!['>'], a); }
                        if g < a || g + 1 > t.len() {
                            (t, bs, j)
                        } else {
                            let close = g + 1;
                            match next_match(t, et, close) {
                                None => html_tag_pass(t, bs, sup, j, close, tag, kind, lang),
                                Some(e) => {
                                    proof { lemma_next_match_facts(t, et, close); }
                                    if e < close || e + et.len() > t.len() {
                                        (t, bs, j)
                                    } else {
                                        let end = e + et.len();
                                        let ph = ph_at(sup, j);
                                        let b = (ph, t.subrange(a, end), lang, kind);
                                        html_tag_pass(splice(t, a, end, ph), insert_block(bs, b), sup, j + 1, a + ph.len(), tag, kind, lang)
                                    }
                                },
                            }
                        }
                    },
                }
            }
        },
    }
}

/// A supply extended by one placeholder keeps the facts of its prefix.
proof fn lemma_supply_push(used: Seq<Seq<char>>, ph: Seq<char>, sup: Seq<Seq<char>>)
    requires
        used.len() + 1 <= sup.len(),
        sup.take(used.len() + 1int) == used.push(ph),
        is_placeholder(ph),
    ensures
        used.len() <= sup.len(),
        sup.take(used.len() as int) == used,
        ph_at(sup, used.len() as int) == ph,
{
    assert(sup.take(used.len() as int) =~= used);
    assert(sup.take(used.len() + 1int)[used.len() as int] == sup[used.len() as int]);
}

proof fn lemma_all_placeholders_push(used: Seq<Seq<char>>, ph: Seq<char>)
    requires
        all_placeholders(used),
        is_placeholder(ph),
    ensures
        all_placeholders(used.push(ph)),
{
    assert forall|k: int| 0 <= k < used.push(ph).len() implies is_placeholder(#[trigger] used.push(ph)[k]) by {
        if k < used.len() { assert(used.push(ph)[k] == used[k]); }
    }
}

impl ContentProcessor {
    /// Protects inline code (`inline_pass`); gives the text and the
    /// placeholders drawn.
    fn protect_inline_code(&mut self, text: Vec<char>) -> (r: (Vec<char>, Ghost<Seq<Seq<char>>>))
        requires
            old(self).wf(),
        ensures
            final(self).wf(),
            all_placeholders(r.1@),
            inline_pass(text@, old(self).blocks(), r.1@, 0, 0) == (r.0@, final(self).blocks(), r.1@.len() as int),
    {
        let ghost t0 = text@;
        let ghost b0 = self.blocks();
        let mut cur = text;
        let mut from: usize = 0;
        let ghost mut used: Seq<Seq<char>> = Seq::empty();
        let tick = vec!['`'];
        let nl = vec!['\n'];
        assert(tick@ =~= seq!['`']);
        assert(nl@ =~= seq!['\n']);
        loop
            invariant
                self.wf(),
                t0 == text@,
                b0 == old(self).blocks(),
                tick@ == seq!['`'],
                nl@ == seq!['\n'],
                from <= cur@.len(),
                all_placeholders(used),
                forall|sup: Seq<Seq<char>>| used.len() <= sup.len() && #[trigger] sup.take(used.len() as int) == used ==>
                    inline_pass(t0, b0, sup, 0, 0) == inline_pass(cur@, self.blocks(), sup, used.len() as int, from as int),
            decreases cur@.len() - from,
        {
            let ghost t = cur@;
            let ghost bs = self.blocks();
            let ghost j = used.len() as int;
            let n = cur.len();
            match find_next(&cur, &tick, from) {
                None => {
                    proof {
                        assert(used.take(used.len() as int) =~= used);
                        assert(inline_pass(t0, b0, used, 0, 0) == inline_pass(t, bs, used, j, from as int));
                    }
                    return (cur, Ghost(used));
                },
                Some(a) => {
                    assert(a + 1 <= n);
                    proof { lemma_next_match_facts(t, seq!['`'], from as int); }
                    match find_next(&cur, &tick, a + 1) {
                        None => {
                            proof { lemma_next_match_facts(t, seq!['`'], a + 1); }
                            from = a + 1;
                        },
                        Some(e0) => {
                            assert(e0 + 1 <= n);
                            proof { lemma_next_match_facts(t, seq!['`'], a + 1); }
                            let end = e0 + 1;
                            let code = slice_vec(&cur, a + 1, e0);
                            if !contains(&code, &nl) && trim_vec(&code).len() > 0 {
                                let block = slice_vec(&cur, a, end);
                                let ph = self.create_placeholder();
                                let phv = chars_of(ph.as_str());
                                self.store(ph, string_of(&block), None, CodeBlockType::InlineCode);
                                let next = splice_exec(&cur, a, end, &phv);
                                let ghost used2 = used.push(phv@);
                                proof {
                                    assert forall|sup: Seq<Seq<char>>| j + 1 <= sup.len() && #[trigger] sup.take(j + 1) == used2 implies
                                        inline_pass(t0, b0, sup, 0, 0) == inline_pass(next@, self.blocks(), sup, j + 1, a + phv@.len()) by {
                                        lemma_supply_push(used, phv@, sup);
                                    }
                                    lemma_all_placeholders_push(used, phv@);
                                }
                                let nn = next.len();
                                assert(a + phv@.len() <= nn);
                                cur = next;
                                from = a + phv.len();
                                proof { used = used2; }
                            } else {
                                from = a + 1;
                            }
                        },
                    }
                },
            }
        }
    }

    /// Protects the elements `tag` (`html_tag_pass`); gives the text and the
    /// placeholders drawn.
    fn protect_html_tag(&mut self, text: Vec<char>, tag: &str, kind: CodeBlockType, lang: Option<&str>)
        -> (r: (Vec<char>, Ghost<Seq<Seq<char>>>))
        requires
            old(self).wf(),
        ensures
            final(self).wf(),
            all_placeholders(r.1@),
            html_tag_pass(text@, old(self).blocks(), r.1@, 0, 0, tag@, kind, match lang { Some(l) => Some(l@), None => None })
                == (r.0@, final(self).blocks(), r.1@.len() as int),
    {
        let ghost t0 = text@;
        let ghost b0 = self.blocks();
        let ghost lv: Option<Seq<char>> = match lang { Some(l) => Some(l@), None => None };
        let mut cur = text;
        let mut from: usize = 0;
        let ghost mut used: Seq<Seq<char>> = Seq::empty();
        let mut st: Vec<char> = vec!['<'];
        append_str(&mut st, tag);
        let mut et: Vec<char> = vec!['<', '/'];
        append_str(&mut et, tag);
        et.push('>');
        let gt = vec!['>'];
        assert(st@ =~= seq!['<'] + tag@);
        assert(et@ =~= seq!['<', '/'] + tag@ + seq!['>']);
        assert(gt@ =~= seq!['>']);
        loop
            invariant
                self.wf(),
                t0 == text@,
                b0 == old(self).blocks(),
                lv == (match lang { Some(l) => Some(l@), None => None::<Seq<char>> }),
                st@ == seq!['<'] + tag@,
                et@ == seq!['<', '/'] + tag@ + seq!['>'],
                gt@ == seq!['>'],
                from <= cur@.len(),
                all_placeholders(used),
                forall|sup: Seq<Seq<char>>| used.len() <= sup.len() && #[trigger] sup.take(used.len() as int) == used ==>
                    html_tag_pass(t0, b0, sup, 0, 0, tag@, kind, lv)
                        == html_tag_pass(cur@, self.blocks(), sup, used.len() as int, from as int, tag@, kind, lv),
            decreases cur@.len() - from,
        {
            let ghost t = cur@;
            let ghost bs = self.blocks();
            let ghost j = used.len() as int;
            let n = cur.len();
            match find_next(&cur, &st, from) {
                None => {
                    proof {
                        assert(used.take(used.len() as int) =~= used);
                        assert(html_tag_pass(t0, b0, used, 0, 0, tag@, kind, lv) == html_tag_pass(t, bs, used, j, from as int, tag@, kind, lv));
                    }
                    return (cur, Ghost(used));
                },
                Some(a) => {
                    assert(a + st@.len() <= n);
                    proof { lemma_next_match_facts(t, st@, from as int); }
                    match find_next(&cur, &gt, a) {
                        None => {
                            proof { lemma_next_match_facts(t, seq!['>'], a as int); }
                            from = a + st.len();
                        },
                        Some(g) => {
                            assert(g + 1 <= n);
                            proof { lemma_next_match_facts(t, seq!['>'], a as int); }
                            let close = g + 1;
                            match find_next(&cur, &et, close) {
                                None => {
                                    proof { lemma_next_match_facts(t, et@, close as int); }
                                    from = close;
                                },
                                Some(e) => {
                                    assert(e + et@.len() <= n);
                                    proof { lemma_next_match_facts(t, et@, close as int); }
                                    let end = e + et.len();
                                    let block = slice_vec(&cur, a, end);
                                    let ph = self.create_placeholder();
                                    let phv = chars_of(ph.as_str());
                                    let l: Option<String> = match lang { Some(x) => Some(x.to_owned()), None => None };
                                    assert(opt_chars(l) == lv);
                                    self.store(ph, string_of(&block), l, kind);
                                    let next = splice_exec(&cur, a, end, &phv);
                                    let ghost used2 = used.push(phv@);
                                    proof {
                                        assert forall|sup: Seq<Seq<char>>| j + 1 <= sup.len() && #[trigger] sup.take(j + 1) == used2 implies
                                            html_tag_pass(t0, b0, sup, 0, 0, tag@, kind, lv)
                                                == html_tag_pass(next@, self.blocks(), sup, j + 1, a + phv@.len(), tag@, kind, lv) by {
                                            lemma_supply_push(used, phv@, sup);
                                        }
                                        lemma_all_placeholders_push(used, phv@);
                                    }
                                    let nn = next.len();
                                    assert(a + phv@.len() <= nn);
                                    cur = next;
                                    from = a + phv.len();
                                    proof { used = used2; }
                                },
                            }
                        },
                    }
                },
            }
        }
    }
}

// ---------------------------------------------------------------------------
// Passes that collect candidates first and replace them afterwards.
// ---------------------------------------------------------------------------

/// A file path: starts with `/`, `./` or `~/`, holds a `.`, more than 3 bytes.
pub open spec fn is_file_path(w: Seq<char>) -> bool {
    (starts_with(w, seq!['/']) || starts_with(w, seq!['.', '/']) || starts_with(w, seq!['~', '/']))
        && has_match(w, seq!['.']) && utf8_len(w) > 3
}

/// An environment variable: starts with `$` or `%`, more than 2 bytes.
pub open spec fn is_env_variable(w: Seq<char>) -> bool {
    (starts_with(w, seq!['$']) || starts_with(w, seq!['%'])) && utf8_len(w) > 2
}

/// Whether `c` may appear after the `v` of a version number.
pub open spec fn version_tail_char(c: char) -> bool {
    unicode_numeric(c) || c == '.' || c == '-'
}

/// A version number: at least 3 bytes, and either `v` then a digit and a
/// tail of digits, dots and hyphens (as many of those characters as the
/// tail has bytes) holding a dot, or a digit first, one to three dots, and
/// only digits, dots, hyphens and letters.
pub open spec fn is_version_number_spec(w: Seq<char>) -> bool {
    if utf8_len(w) < 3 {
        false
    } else if w.len() > 1 && w[0] == 'v' && unicode_numeric(w[1]) {
        let r = w.drop_first();
        has_match(r, seq!['.']) && filter_chars(r, |c: char| version_tail_char(c)).len() == utf8_len(r)
    } else if w.len() > 0 && unicode_numeric(w[0]) {
        let dots = count_char(w, '.');
        1 <= dots <= 3 && forall|i: int| 0 <= i < w.len() ==> (unicode_numeric(#[trigger] w[i]) || w[i] == '.' || w[i] == '-' || unicode_alphabetic(w[i]))
    } else {
        false
    }
}

/// A function call without arguments: ends with `()`, more than 2 bytes,
/// and the name before `()` is letters, digits, `_` and `.`.
pub open spec fn is_function_name(w: Seq<char>) -> bool {
    ends_with(w, seq!['(', ')']) && utf8_len(w) > 2
        && forall|i: int| 0 <= i < w.len() - 2 ==> (unicode_alphanumeric(#[trigger] w[i]) || w[i] == '_' || w[i] == '.')
}

/// The word rule of a type of piece.
pub open spec fn word_rule(k: CodeBlockType, w: Seq<char>) -> bool {
    match k {
        CodeBlockType::FilePath => is_file_path(w),
        CodeBlockType::EnvVariable => is_env_variable(w),
        CodeBlockType::VersionNumber => is_version_number_spec(w),
        CodeBlockType::FunctionName => is_function_name(w),
        _ => false,
    }
}

/// The words of the lines that follow the rule of `k`, line by line.
pub open spec fn word_candidates(ls: Seq<Seq<char>>, k: CodeBlockType) -> Seq<Seq<char>>
    decreases ls.len(),
{
    if ls.len() == 0 {
        seq![]
    } else {
        word_candidates(ls.drop_last(), k) + filter_seqs(split_ws(ls.last()), |w: Seq<char>| word_rule(k, w))
    }
}

/// The trimmed lines that are shell commands (`$ ` or `# ` first, more than
/// 2 bytes).
pub open spec fn command_candidates(ls: Seq<Seq<char>>) -> Seq<Seq<char>>
    decreases ls.len(),
{
    if ls.len() == 0 {
        seq![]
    } else {
        let tr = trim(ls.last());
        command_candidates(ls.drop_last())
            + if (starts_with(tr, seq!['$', ' ']) || starts_with(tr, seq!['#', ' '])) && utf8_len(tr) > 2 {
                seq![tr]
            } else {
                seq![]
            }
    }
}

/// From each `/` of a line at or after `start`: the text up to the next
/// space (or the end of the line), where it has more than 3 bytes and at
/// least two `/`.
pub open spec fn api_scan(line: Seq<char>, start: int) -> Seq<Seq<char>>
    decreases line.len() - start,
{
    match next_match(line, seq!['/'], start) {
        None => seq![],
        Some(p) => {
            proof { lemma_next_match_facts(line, seq!['/'], start); }
            if p < start || p >= line.len() {
                seq![]
            } else {
                let end = match next_match(line, seq![' '], p) {
                    Some(sp) => sp,
                    None => line.len() as int,
                };
                let ep = line.subrange(p, end);
                (if utf8_len(ep) > 3 && count_char(ep, '/') >= 2 { seq![ep] } else { seq![] }) + api_scan(line, p + 1)
            }
        },
    }
}

/// Whether a line mentions an API or documentation path.
pub open spec fn mentions_api(line: Seq<char>) -> bool {
    has_match(line, "/api/"@) || has_match(line, "/docs/"@) || has_match(line, "/v1/"@) || has_match(line, "/v2/"@)
}

/// The API endpoints of the lines that mention one.
pub open spec fn api_candidates(ls: Seq<Seq<char>>) -> Seq<Seq<char>>
    decreases ls.len(),
{
    if ls.len() == 0 {
        seq![]
    } else {
        api_candidates(ls.drop_last()) + if mentions_api(ls.last()) { api_scan(ls.last(), 0) } else { seq![] }
    }
}

/// The pieces stored for the candidates, the `k`-th under `ph_at(sup, k)`.
pub open spec fn insert_all(bs: Seq<BlockView>, sup: Seq<Seq<char>>, cands: Seq<Seq<char>>, lang: Seq<char>, kind: CodeBlockType)
    -> Seq<BlockView>
    decreases cands.len(),
{
    if cands.len() == 0 {
        bs
    } else {
        let k = cands.len() - 1;
        insert_block(insert_all(bs, sup, cands.drop_last(), lang, kind), (ph_at(sup, k), cands.last(), Some(lang), kind))
    }
}

/// The text with each candidate, in order, replaced everywhere by its
/// placeholder.
pub open spec fn replace_all(t: Seq<char>, sup: Seq<Seq<char>>, cands: Seq<Seq<char>>) -> Seq<char>
    decreases cands.len(),
{
    if cands.len() == 0 {
        t
    } else {
        replace(replace_all(t, sup, cands.drop_last()), cands.last(), ph_at(sup, cands.len() - 1))
    }
}

/// A collect-then-replace pass over the candidates `cands`.
pub open spec fn apply_pass(t: Seq<char>, bs: Seq<BlockView>, sup: Seq<Seq<char>>, cands: Seq<Seq<char>>, lang: Seq<char>, kind: CodeBlockType)
    -> (Seq<char>, Seq<BlockView>, int) {
    (replace_all(t, sup, cands), insert_all(bs, sup, cands, lang, kind), cands.len() as int)
}

/// `is_file_path`.
fn is_file_path_exec(w: &[char]) -> (r: bool)
    ensures
        r == is_file_path(w@),
{
    let a = vec!['/'];
    let b = vec!['.', '/'];
    let c = vec!['~', '/'];
    let d = vec!['.'];
    assert(a@ =~= seq!['/'] && b@ =~= seq!['.', '/'] && c@ =~= seq!['~', '/'] && d@ =~= seq!['.']);
    assert(w@.take(w@.len() as int) =~= w@);
    (starts_with_vec(w, &a) || starts_with_vec(w, &b) || starts_with_vec(w, &c)) && contains(w, &d)
        && utf8_len_upto(w, w.len(), 3).is_none()
}

/// `is_env_variable`.
fn is_env_variable_exec(w: &[char]) -> (r: bool)
    ensures
        r == is_env_variable(w@),
{
    let a = vec!['$'];
    let b = vec!['%'];
    assert(a@ =~= seq!['$'] && b@ =~= seq!['%']);
    assert(w@.take(w@.len() as int) =~= w@);
    (starts_with_vec(w, &a) || starts_with_vec(w, &b)) && utf8_len_upto(w, w.len(), 2).is_none()
}

/// How many characters of `s` satisfy `version_tail_char`.
fn count_version_tail(s: &[char]) -> (n: usize)
    ensures
        n == filter_chars(s@, |c: char| version_tail_char(c)).len(),
{
    let ghost p = |c: char| version_tail_char(c);
    let mut n: usize = 0;
    let mut i: usize = 0;
    while i < s.len()
        invariant
            i <= s@.len(),
            p == (|c: char| version_tail_char(c)),
            n == filter_chars(s@.take(i as int), p).len(),
            n <= i,
        decreases s.len() - i,
    {
        assert(s@.take(i + 1).drop_last() =~= s@.take(i as int));
        assert(s@.take(i + 1).last() == s@[i as int]);
        let c = s[i];
        if is_numeric(c) || c == '.' || c == '-' {
            n += 1;
        }
        i += 1;
    }
    assert(s@.take(s@.len() as int) =~= s@);
    n
}

/// `is_version_number_spec`.
fn version_number_exec(w: &[char]) -> (r: bool)
    ensures
        r == is_version_number_spec(w@),
{
    let n = w.len();
    assert(w@.take(n as int) =~= w@);
    if utf8_len_upto(w, n, 2).is_some() {
        return false;
    }
    if n > 1 && w[0] == 'v' && is_numeric(w[1]) {
        let r = slice_vec(w, 1, n);
        assert(r@ =~= w@.drop_first());
        let d = vec!['.'];
        assert(d@ =~= seq!['.']);
        if !contains(&r, &d) {
            return false;
        }
        let cnt = count_version_tail(&r);
        let rn = r.len();
        assert(r@.take(rn as int) =~= r@);
        return match utf8_len_upto(&r, rn, cnt) {
            Some(b) => b == cnt,
            None => false,
        };
    }
    if n > 0 && is_numeric(w[0]) {
        let dots = count_char_vec(w, '.');
        if dots < 1 || dots > 3 {
            return false;
        }
        let mut i: usize = 0;
        while i < n
            invariant
                n == w@.len(),
                i <= n,
                is_version_number_spec(w@) == forall|k: int| 0 <= k < n ==> (unicode_numeric(#[trigger] w@[k]) || w@[k] == '.' || w@[k] == '-' || unicode_alphabetic(w@[k])),
                forall|k: int| 0 <= k < i ==> (unicode_numeric(#[trigger] w@[k]) || w@[k] == '.' || w@[k] == '-' || unicode_alphabetic(w@[k])),
            decreases n - i,
        {
            let c = w[i];
            if !(is_numeric(c) || c == '.' || c == '-' || is_alphabetic(c)) {
                return false;
            }
            i += 1;
        }
        return true;
    }
    false
}

/// `is_function_name`.
fn is_function_name_exec(w: &[char]) -> (r: bool)
    ensures
        r == is_function_name(w@),
{
    let e = vec!['(', ')'];
    assert(e@ =~= seq!['(', ')']);
    let n = w.len();
    assert(w@.take(n as int) =~= w@);
    if !ends_with_vec(w, &e) || utf8_len_upto(w, n, 2).is_some() {
        return false;
    }
    let mut i: usize = 0;
    while i + 2 < n
        invariant
            n == w@.len(),
            n >= 2,
            i <= n - 2,
            forall|k: int| 0 <= k < i ==> (unicode_alphanumeric(#[trigger] w@[k]) || w@[k] == '_' || w@[k] == '.'),
        decreases n - i,
    {
        let c = w[i];
        if !(is_alphanumeric(c) || c == '_' || c == '.') {
            return false;
        }
        i += 1;
    }
    true
}

/// `word_rule`.
fn word_rule_exec(k: CodeBlockType, w: &[char]) -> (r: bool)
    ensures
        r == word_rule(k, w@),
{
    match k {
        CodeBlockType::FilePath => is_file_path_exec(w),
        CodeBlockType::EnvVariable => is_env_variable_exec(w),
        CodeBlockType::VersionNumber => version_number_exec(w),
        CodeBlockType::FunctionName => is_function_name_exec(w),
        _ => false,
    }
}

/// Appends the vectors of `b` to `a`.
fn append_vecs(a: &mut Vec<Vec<char>>, b: Vec<Vec<char>>)
    ensures
        views(final(a)@) == views(old(a)@) + views(b@),
{
    let ghost a0 = views(a@);
    let ghost bv = views(b@);
    let mut b = b;
    a.append(&mut b);
    assert(views(a@) =~= a0 + bv);
}

/// `word_candidates` of the lines of `t`.
fn word_candidates_exec(t: &[char], k: CodeBlockType) -> (r: Vec<Vec<char>>)
    ensures
        views(r@) == word_candidates(lines(t@), k),
{
    let ls = lines_vec(t);
    let mut r: Vec<Vec<char>> = Vec::new();
    let mut i: usize = 0;
    while i < ls.len()
        invariant
            i <= ls@.len(),
            views(r@) == word_candidates(views(ls@).take(i as int), k),
        decreases ls.len() - i,
    {
        let ghost lv = views(ls@).take(i + 1);
        assert(lv.drop_last() =~= views(ls@).take(i as int));
        assert(lv.last() == ls@[i as int]@);
        let words = split_ws_vec(&ls[i]);
        let mut keep: Vec<bool> = Vec::new();
        let mut m: usize = 0;
        while m < words.len()
            invariant
                m <= words@.len(),
                keep@.len() == m,
                forall|q: int| 0 <= q < m ==> keep@[q] == word_rule(k, #[trigger] words@[q]@),
            decreases words.len() - m,
        {
            keep.push(word_rule_exec(k, &words[m]));
            m += 1;
        }
        let ghost p = |w: Seq<char>| word_rule(k, w);
        assert forall|q: int| 0 <= q < words@.len() implies keep@[q] == p(#[trigger] words@[q]@) by {}
        let kept = keep_views(&words, Ghost(p), keep);
        append_vecs(&mut r, kept);
        i += 1;
    }
    assert(views(ls@).take(ls@.len() as int) =~= views(ls@));
    r
}

/// `command_candidates` of the lines of `t`.
fn command_candidates_exec(t: &[char]) -> (r: Vec<Vec<char>>)
    ensures
        views(r@) == command_candidates(lines(t@)),
{
    let ls = lines_vec(t);
    let dollar = vec!['$', ' '];
    let hash = vec!['#', ' '];
    assert(dollar@ =~= seq!['$', ' '] && hash@ =~= seq!['#', ' ']);
    let mut r: Vec<Vec<char>> = Vec::new();
    let mut i: usize = 0;
    while i < ls.len()
        invariant
            i <= ls@.len(),
            dollar@ == seq!['$', ' '],
            hash@ == seq!['#', ' '],
            views(r@) == command_candidates(views(ls@).take(i as int)),
        decreases ls.len() - i,
    {
        let ghost lv = views(ls@).take(i + 1);
        assert(lv.drop_last() =~= views(ls@).take(i as int));
        assert(lv.last() == ls@[i as int]@);
        let tr = trim_vec(&ls[i]);
        let tn = tr.len();
        assert(tr@.take(tn as int) =~= tr@);
        let ghost r0 = views(r@);
        if (starts_with_vec(&tr, &dollar) || starts_with_vec(&tr, &hash)) && utf8_len_upto(&tr, tn, 2).is_none() {
            r.push(tr);
            assert(views(r@) =~= r0 + seq![r@.last()@]);
        } else {
            assert(r0 + Seq::<Seq<char>>::empty() =~= r0);
        }
        i += 1;
    }
    assert(views(ls@).take(ls@.len() as int) =~= views(ls@));
    r
}

/// `api_scan` of a line from `start` on.
fn api_scan_exec(line: &[char], start: usize) -> (r: Vec<Vec<char>>)
    ensures
        views(r@) == api_scan(line@, start as int),
    decreases line@.len() - start,
{
    let slash = vec!['/'];
    let space = vec![' '];
    assert(slash@ =~= seq!['/'] && space@ =~= seq![' ']);
    proof { lemma_next_match_facts(line@, seq!['/'], start as int); }
    match find_next(line, &slash, start) {
        None => Vec::new(),
        Some(p) => {
            let n = line.len();
            let end = match find_next(line, &space, p) {
                Some(sp) => sp,
                None => n,
            };
            proof { lemma_next_match_facts(line@, seq![' '], p as int); }
            let ep = slice_vec(line, p, end);
            let en = ep.len();
            assert(ep@.take(en as int) =~= ep@);
            let mut r: Vec<Vec<char>> = Vec::new();
            if utf8_len_upto(&ep, en, 3).is_none() && count_char_vec(&ep, '/') >= 2 {
                r.push(ep);
            }
            let rest = api_scan_exec(line, p + 1);
            let ghost r0 = views(r@);
            append_vecs(&mut r, rest);
            r
        },
    }
}

/// `api_candidates` of the lines of `t`.
fn api_candidates_exec(t: &[char]) -> (r: Vec<Vec<char>>)
    ensures
        views(r@) == api_candidates(lines(t@)),
{
    let ls = lines_vec(t);
    let p1 = chars_of("/api/");
    let p2 = chars_of("/docs/");
    let p3 = chars_of("/v1/");
    let p4 = chars_of("/v2/");
    let mut r: Vec<Vec<char>> = Vec::new();
    let mut i: usize = 0;
    while i < ls.len()
        invariant
            i <= ls@.len(),
            p1@ == "/api/"@,
            p2@ == "/docs/"@,
            p3@ == "/v1/"@,
            p4@ == "/v2/"@,
            views(r@) == api_candidates(views(ls@).take(i as int)),
        decreases ls.len() - i,
    {
        let ghost lv = views(ls@).take(i + 1);
        assert(lv.drop_last() =~= views(ls@).take(i as int));
        assert(lv.last() == ls@[i as int]@);
        let line = &ls[i];
        if contains(line, &p1) || contains(line, &p2) || contains(line, &p3) || contains(line, &p4) {
            let found = api_scan_exec(line, 0);
            append_vecs(&mut r, found);
        } else {
            assert(views(r@) + Seq::<Seq<char>>::empty() =~= views(r@));
        }
        i += 1;
    }
    assert(views(ls@).take(ls@.len() as int) =~= views(ls@));
    r
}

impl ContentProcessor {
    /// Stores each candidate under a fresh placeholder, then replaces each,
    /// in order, everywhere in the text (`apply_pass`); gives the text and
    /// the placeholders drawn.
    fn apply_candidates(&mut self, text: Vec<char>, cands: &Vec<Vec<char>>, lang: &str, kind: CodeBlockType)
        -> (r: (Vec<char>, Ghost<Seq<Seq<char>>>))
        requires
            old(self).wf(),
        ensures
            final(self).wf(),
            all_placeholders(r.1@),
            apply_pass(text@, old(self).blocks(), r.1@, views(cands@), lang@, kind) == (r.0@, final(self).blocks(), r.1@.len() as int),
    {
        let ghost b0 = self.blocks();
        let ghost cs = views(cands@);
        let mut phs: Vec<Vec<char>> = Vec::new();
        let mut i: usize = 0;
        assert(cs.take(0) =~= Seq::<Seq<char>>::empty());
        while i < cands.len()
            invariant
                i <= cands@.len(),
                cs == views(cands@),
                b0 == old(self).blocks(),
                self.wf(),
                phs@.len() == i,
                all_placeholders(views(phs@)),
                forall|sup: Seq<Seq<char>>| i <= sup.len() && #[trigger] sup.take(i as int) == views(phs@) ==>
                    insert_all(b0, sup, cs.take(i as int), lang@, kind) == self.blocks(),
            decreases cands.len() - i,
        {
            let ph = self.create_placeholder();
            let phv = chars_of(ph.as_str());
            let c = slice_vec(&cands[i], 0, cands[i].len());
            assert(c@ =~= cs[i as int]);
            let ghost used = views(phs@);
            self.store(ph, string_of(&c), Some(lang.to_owned()), kind);
            phs.push(phv);
            proof {
                assert(views(phs@) =~= used.push(phv@));
                lemma_all_placeholders_push(used, phv@);
                assert forall|sup: Seq<Seq<char>>| i + 1 <= sup.len() && #[trigger] sup.take(i + 1) == views(phs@) implies
                    insert_all(b0, sup, cs.take(i + 1), lang@, kind) == self.blocks() by {
                    lemma_supply_push(used, phv@, sup);
                    assert(cs.take(i + 1).drop_last() =~= cs.take(i as int));
                }
            }
            i += 1;
        }
        let ghost used = views(phs@);
        assert(used.take(used.len() as int) =~= used);
        assert(cs.take(cs.len() as int) =~= cs);
        let mut cur = text;
        let mut k: usize = 0;
        assert(cs.take(0) =~= Seq::<Seq<char>>::empty());
        while k < cands.len()
            invariant
                k <= cands@.len(),
                cs == views(cands@),
                used == views(phs@),
                phs@.len() == cands@.len(),
                all_placeholders(used),
                cur@ == replace_all(text@, used, cs.take(k as int)),
            decreases cands.len() - k,
        {
            assert(cs.take(k + 1).drop_last() =~= cs.take(k as int));
            assert(is_placeholder(used[k as int]));
            assert(ph_at(used, k as int) == phs@[k as int]@);
            if cands[k].len() > 0 {
                cur = replace_vec(&cur, &cands[k], &phs[k]);
            }
            k += 1;
        }
        (cur, Ghost(used))
    }
}

// ---------------------------------------------------------------------------
// JSON objects.
// ---------------------------------------------------------------------------

/// Scanning for the first balanced `{...}` (counting braces from `i` on,
/// `count` open, the outermost opened at `start`) that has more than 10
/// bytes and holds a `"` and a `:`; its bounds.
pub open spec fn json_scan(t: Seq<char>, i: int, count: int, start: Option<int>) -> Option<(int, int)>
    decreases t.len() - i,
{
    if i < 0 || i >= t.len() {
        None
    } else if t[i] == '{' {
        json_scan(t, i + 1, count + 1, if count == 0 { Some(i) } else { start })
    } else if t[i] == '}' {
        if count - 1 == 0 {
            match start {
                Some(s) => {
                    if 0 <= s <= i {
                        let js = t.subrange(s, i + 1);
                        if utf8_len(js) > 10 && has_match(js, seq!['"']) && has_match(js, seq![':']) {
                            Some((s, i + 1))
                        } else {
                            json_scan(t, i + 1, 0, None)
                        }
                    } else {
                        json_scan(t, i + 1, 0, None)
                    }
                },
                None => json_scan(t, i + 1, 0, None),
            }
        } else {
            json_scan(t, i + 1, count - 1, start)
        }
    } else {
        json_scan(t, i + 1, count, start)
    }
}

/// The first JSON object found becomes a placeholder, everywhere it occurs.
pub open spec fn json_pass(t: Seq<char>, bs: Seq<BlockView>, sup: Seq<Seq<char>>) -> (Seq<char>, Seq<BlockView>, int) {
    match json_scan(t, 0, 0, None) {
        None => (t, bs, 0),
        Some((s, e)) => {
            let js = t.subrange(s, e);
            let ph = ph_at(sup, 0);
            (replace(t, js, ph), insert_block(bs, (ph, js, Some("json"@), CodeBlockType::JsonData)), 1)
        },
    }
}

proof fn lemma_json_scan_bounds(t: Seq<char>, i: int, count: int, start: Option<int>)
    ensures
        match json_scan(t, i, count, start) {
            Some((s, e)) => 0 <= s < e <= t.len() && utf8_len(t.subrange(s, e)) > 10,
            None => true,
        },
    decreases t.len() - i,
{
    if 0 <= i < t.len() {
        if t[i] == '{' {
            lemma_json_scan_bounds(t, i + 1, count + 1, if count == 0 { Some(i) } else { start });
        } else if t[i] == '}' {
            lemma_json_scan_bounds(t, i + 1, 0, None);
            lemma_json_scan_bounds(t, i + 1, count - 1, start);
        } else {
            lemma_json_scan_bounds(t, i + 1, count, start);
        }
    }
}

impl ContentProcessor {
    /// Protects the first JSON object (`json_pass`); gives the text and the
    /// placeholders drawn.
    fn protect_json_data(&mut self, text: Vec<char>) -> (r: (Vec<char>, Ghost<Seq<Seq<char>>>))
        requires
            old(self).wf(),
        ensures
            final(self).wf(),
            all_placeholders(r.1@),
            json_pass(text@, old(self).blocks(), r.1@) == (r.0@, final(self).blocks(), r.1@.len() as int),
    {
        let ghost t = text@;
        let n = text.len();
        let mut i: usize = 0;
        let mut count: i128 = 0;
        let mut start: Option<usize> = None;
        let quote = vec!['"'];
        let colon = vec![':'];
        assert(quote@ =~= seq!['"'] && colon@ =~= seq![':']);
        let mut found: Option<(usize, usize)> = None;
        while i < n
            invariant_except_break
                -(i as int) <= count <= i as int,
                found is None,
                json_scan(t, 0, 0, None) == json_scan(t, i as int, count as int, match start { Some(s) => Some(s as int), None => None }),
                match start { Some(s) => s < i, None => true },
            invariant
                n == t.len(),
                t == text@,
                i <= n,
                quote@ == seq!['"'],
                colon@ == seq![':'],
            ensures
                match found {
                    Some((s, e)) => json_scan(t, 0, 0, None) == Some((s as int, e as int)),
                    None => json_scan(t, 0, 0, None) is None,
                },
            decreases n - i,
        {
            let c = text[i];
            if c == '{' {
                if count == 0 {
                    start = Some(i);
                }
                count = count + 1;
            } else if c == '}' {
                count = count - 1;
                if count == 0 {
                    match start {
                        Some(s) => {
                            let js = slice_vec(&text, s, i + 1);
                            let jn = js.len();
                            assert(js@.take(jn as int) =~= js@);
                            if utf8_len_upto(&js, jn, 10).is_none() && contains(&js, &quote) && contains(&js, &colon) {
                                found = Some((s, i + 1));
                                break;
                            }
                        },
                        None => {},
                    }
                    start = None;
                }
            }
            i += 1;
        }
        proof { lemma_json_scan_bounds(t, 0, 0, None); }
        match found {
            None => {
                (text, Ghost(Seq::empty()))
            },
            Some((s, e)) => {
                let js = slice_vec(&text, s, e);
                let ph = self.create_placeholder();
                let phv = chars_of(ph.as_str());
                let ghost used = seq![phv@];
                assert(ph_at(used, 0) == phv@);
                self.store(ph, string_of(&js), Some("json".to_owned()), CodeBlockType::JsonData);
                let out = replace_vec(&text, &js, &phv);
                assert(all_placeholders(used));
                (out, Ghost(used))
            },
        }
    }
}

// ---------------------------------------------------------------------------
// HTML tags. This pass moves through the text by byte offsets and
// slices at them: an offset that does not fall on a
// character boundary of the changed text ends the pass without a result.
// ---------------------------------------------------------------------------

/// A placeholder holds no `<`.
pub proof fn lemma_placeholder_no_angle(p: Seq<char>)
    requires
        is_placeholder(p) || p == default_placeholder(),
    ensures
        count_char(p, '<') == 0,
{
    reveal_strlit("__CODE_BLOCK_");
    reveal_strlit("__");
    if is_placeholder(p) {
        assert forall|i: int| 0 <= i < p.len() implies p[i] != '<' by {
            if i < 13 {
                assert(p[i] == p.take(13)[i]);
            } else if i < 45 {
                assert(p[i] == p.subrange(13, 45)[i - 13]);
                assert(crate::ids::is_lower_hex(p.subrange(13, 45)[i - 13]));
            } else {
                assert(p[i] == p.skip(45)[i - 45]);
            }
        }
    } else {
        assert forall|i: int| 0 <= i < p.len() implies p[i] != '<' by {
            let z = Seq::new(32, |i: int| '0');
            assert(p == "__CODE_BLOCK_"@ + z + "__"@);
            if i < 13 {
            } else if i < 45 {
                assert(p[i] == z[i - 13]);
            } else {
            }
        }
    }
    lemma_count_char_absent(p, '<');
}

/// What is left to scan: the bytes after `pos`, or none where `pos` is past
/// the end.
pub open spec fn room(t: Seq<char>, pos: int) -> int {
    if pos <= utf8_len(t) { utf8_len(t) - pos } else { 0 }
}

/// HTML tags from byte `pos` on: from each `<` to the next `>`, where that
/// has more than 2 bytes and a letter after the `<`, the tag becomes a
/// placeholder everywhere it occurs, and the scan goes on at the old
/// offset of the `<` plus the placeholder's length. `None` where the scan
/// would slice off a character boundary.
pub open spec fn html_tags_pass(t: Seq<char>, bs: Seq<BlockView>, sup: Seq<Seq<char>>, j: int, pos: int)
    -> Option<(Seq<char>, Seq<BlockView>, int)>
    decreases count_char(t, '<'), room(t, pos),
{
    match char_index_at(t, pos) {
        None => None,
        Some(k) => match next_match(t, seq!['<'], k) {
            None => Some((t, bs, j)),
            Some(a) => {
                proof {
                    lemma_next_match_facts(t, seq!['<'], k);
                    lemma_char_index_facts(t, pos);
                }
                if a < k || a >= t.len() || k < 0 {
                    Some((t, bs, j))
                } else {
                    let ab = utf8_len(t.take(a)) as int;
                    proof {
                        lemma_utf8_len_prefix_mono(t, k, a);
                        lemma_utf8_prefix_strict(t, a, a + 1);
                        lemma_utf8_len_prefix_mono(t, a + 1, t.len() as int);
                        assert(t.take(t.len() as int) =~= t);
                    }
                    match next_match(t, seq!['>'], a) {
                        None => html_tags_pass(t, bs, sup, j, ab + 1),
                        Some(g) => {
                            proof { lemma_next_match_facts(t, seq!['>'], a); }
                            if g < a || g >= t.len() {
                                Some((t, bs, j))
                            } else {
                                let tag = t.subrange(a, g + 1);
                                if utf8_len(tag) > 2 && unicode_alphabetic(tag[1]) {
                                    let ph = ph_at(sup, j);
                                    proof {
                                        assert(t.subrange(a, a + 1)[0] == t[a]);
                                        lemma_tag_replace_count(t, a, g, ph);
                                    }
                                    html_tags_pass(
                                        replace(t, tag, ph),
                                        insert_block(bs, (ph, tag, Some("html"@), CodeBlockType::HtmlTag)),
                                        sup,
                                        j + 1,
                                        ab + ph.len(),
                                    )
                                } else {
                                    proof {
                                        lemma_utf8_prefix_strict(t, k, g + 1);
                                        lemma_utf8_len_prefix_mono(t, g + 1, t.len() as int);
                                    }
                                    html_tags_pass(t, bs, sup, j, utf8_len(t.take(g + 1)) as int)
                                }
                            }
                        },
                    }
                }
            },
        },
    }
}

/// What `char_index_at` gives is a boundary at that offset.
pub proof fn lemma_char_index_facts(t: Seq<char>, pos: int)
    ensures
        match char_index_at(t, pos) {
            Some(k) => 0 <= k <= t.len() && utf8_len(t.take(k)) == pos,
            None => true,
        },
{
}

/// Replacing a tag (which begins with `<`) by a placeholder removes a `<`.
pub proof fn lemma_tag_replace_count(t: Seq<char>, a: int, g: int, ph: Seq<char>)
    requires
        0 <= a < g < t.len(),
        t[a] == '<',
        ph == default_placeholder() || is_placeholder(ph),
    ensures
        count_char(replace(t, t.subrange(a, g + 1), ph), '<') < count_char(t, '<'),
{
    let tag = t.subrange(a, g + 1);
    lemma_placeholder_no_angle(ph);
    assert(tag =~= seq![tag[0]] + tag.drop_first());
    lemma_count_char_concat(seq![tag[0]], tag.drop_first(), '<');
    assert(count_char(seq!['<'], '<') == 1) by {
        assert(seq!['<'].drop_last() =~= Seq::<char>::empty());
        assert(count_char(Seq::<char>::empty(), '<') == 0);
    }
    assert(seq![tag[0]] == seq!['<']);
    assert(is_match_at(t, tag, a));
    lemma_replace_count(t, tag, ph, '<');
}

proof fn lemma_ph_at_kind(sup: Seq<Seq<char>>, j: int)
    ensures
        ph_at(sup, j) == default_placeholder() || is_placeholder(ph_at(sup, j)),
{
}

impl ContentProcessor {
    /// Protects HTML tags (`html_tags_pass`); gives the text, or `None` where
    /// the pass would slice off a character boundary, and the placeholders
    /// drawn.
    fn protect_html_tags(&mut self, text: Vec<char>) -> (r: (Option<Vec<char>>, Ghost<Seq<Seq<char>>>))
        requires
            old(self).wf(),
        ensures
            final(self).wf(),
            all_placeholders(r.1@),
            match r.0 {
                Some(out) => html_tags_pass(text@, old(self).blocks(), r.1@, 0, 0) == Some((out@, final(self).blocks(), r.1@.len() as int)),
                None => html_tags_pass(text@, old(self).blocks(), r.1@, 0, 0) is None,
            },
    {
        let ghost t0 = text@;
        let ghost b0 = self.blocks();
        let mut cur = text;
        let mut pos: u128 = 0;
        let ghost mut used: Seq<Seq<char>> = Seq::empty();
        let lt = vec!['<'];
        let gt = vec!['>'];
        assert(lt@ =~= seq!['<'] && gt@ =~= seq!['>']);
        loop
            invariant
                self.wf(),
                t0 == text@,
                b0 == old(self).blocks(),
                lt@ == seq!['<'],
                gt@ == seq!['>'],
                all_placeholders(used),
                forall|sup: Seq<Seq<char>>| used.len() <= sup.len() && #[trigger] sup.take(used.len() as int) == used ==>
                    html_tags_pass(t0, b0, sup, 0, 0) == html_tags_pass(cur@, self.blocks(), sup, used.len() as int, pos as int),
            decreases count_char(cur@, '<'), room(cur@, pos as int),
        {
            let ghost t = cur@;
            let ghost bs = self.blocks();
            let ghost j = used.len() as int;
            let n = cur.len();
            proof {
                assert(used.take(used.len() as int) =~= used);
                assert(html_tags_pass(t0, b0, used, 0, 0) == html_tags_pass(t, bs, used, j, pos as int));
            }
            let k = match char_index_at_wide(&cur, pos) {
                None => {
                    return (None, Ghost(used));
                },
                Some(k) => k,
            };
            proof { lemma_char_index_facts(t, pos as int); }
            match find_next(&cur, &lt, k) {
                None => {
                    return (Some(cur), Ghost(used));
                },
                Some(a) => {
                    proof { lemma_next_match_facts(t, seq!['<'], k as int); }
                    let ab = utf8_prefix_len(&cur, a);
                    proof {
                        lemma_utf8_len_prefix_mono(t, k as int, a as int);
                        lemma_utf8_prefix_strict(t, a as int, a + 1);
                        lemma_utf8_len_prefix_mono(t, a + 1, t.len() as int);
                        assert(t.take(t.len() as int) =~= t);
                        lemma_utf8_len_bound(t);
                    }
                    match find_next(&cur, &gt, a) {
                        None => {
                            proof { lemma_next_match_facts(t, seq!['>'], a as int); }
                            assert(ab <= 4 * n);
                            pos = ab + 1;
                        },
                        Some(g) => {
                            proof { lemma_next_match_facts(t, seq!['>'], a as int); }
                            assert(g < n);
                            let tag = slice_vec(&cur, a, g + 1);
                            let tn = tag.len();
                            assert(tag@.take(tn as int) =~= tag@);
                            if utf8_len_upto(&tag, tn, 2).is_none() && is_alphabetic(tag[1]) {
                                let ph = self.create_placeholder();
                                let phv = chars_of(ph.as_str());
                                self.store(ph, string_of(&tag), Some("html".to_owned()), CodeBlockType::HtmlTag);
                                assert(tag@.len() > 0);
                                let next = replace_vec(&cur, &tag, &phv);
                                let ghost used2 = used.push(phv@);
                                proof {
                                    assert(t.subrange(a as int, a + 1)[0] == t[a as int]);
                                    lemma_tag_replace_count(t, a as int, g as int, phv@);
                                    assert forall|sup: Seq<Seq<char>>| j + 1 <= sup.len() && #[trigger] sup.take(j + 1) == used2 implies
                                        html_tags_pass(t0, b0, sup, 0, 0)
                                            == html_tags_pass(next@, self.blocks(), sup, j + 1, ab + phv@.len()) by {
                                        lemma_supply_push(used, phv@, sup);
                                    }
                                    lemma_all_placeholders_push(used, phv@);
                                }
                                cur = next;
                                pos = ab + phv.len() as u128;
                                proof { used = used2; }
                            } else {
                                proof {
                                    lemma_utf8_prefix_strict(t, k as int, g + 1);
                                    lemma_utf8_len_prefix_mono(t, g + 1, t.len() as int);
                                }
                                pos = utf8_prefix_len(&cur, g + 1);
                            }
                        },
                    }
                },
            }
        }
    }
}

// ---------------------------------------------------------------------------
// All passes.
// ---------------------------------------------------------------------------

/// The passes, in order, each drawing its placeholders from its own supply
/// `us[k]`: fenced code, inline code, the `code`, `pre`, `script` and
/// `style` elements, API endpoints, file paths, environment variables,
/// version numbers, function calls, shell commands, one JSON object, HTML
/// tags. `None` where the last pass would slice off a character boundary.
pub open spec fn protect_spec(t: Seq<char>, bs: Seq<BlockView>, us: Seq<Seq<Seq<char>>>) -> Option<(Seq<char>, Seq<BlockView>)> {
    let (t1, b1, _n1) = fenced_pass(t, bs, us[0], 0, 0);
    let (t2, b2, _n2) = inline_pass(t1, b1, us[1], 0, 0);
    let (t3, b3, _n3) = html_tag_pass(t2, b2, us[2], 0, 0, "code"@, CodeBlockType::HtmlCode, None);
    let (t4, b4, _n4) = html_tag_pass(t3, b3, us[3], 0, 0, "pre"@, CodeBlockType::PreFormatted, None);
    let (t5, b5, _n5) = html_tag_pass(t4, b4, us[4], 0, 0, "script"@, CodeBlockType::ScriptTag, Some("javascript"@));
    let (t6, b6, _n6) = html_tag_pass(t5, b5, us[5], 0, 0, "style"@, CodeBlockType::StyleTag, Some("css"@));
    let (t7, b7, _n7) = apply_pass(t6, b6, us[6], api_candidates(lines(t6)), "api"@, CodeBlockType::ApiEndpoint);
    let (t8, b8, _n8) = apply_pass(t7, b7, us[7], word_candidates(lines(t7), CodeBlockType::FilePath), "path"@, CodeBlockType::FilePath);
    let (t9, b9, _n9) = apply_pass(t8, b8, us[8], word_candidates(lines(t8), CodeBlockType::EnvVariable), "env"@, CodeBlockType::EnvVariable);
    let (t10, b10, _n10) = apply_pass(t9, b9, us[9], word_candidates(lines(t9), CodeBlockType::VersionNumber), "version"@, CodeBlockType::VersionNumber);
    let (t11, b11, _n11) = apply_pass(t10, b10, us[10], word_candidates(lines(t10), CodeBlockType::FunctionName), "function"@, CodeBlockType::FunctionName);
    let (t12, b12, _n12) = apply_pass(t11, b11, us[11], command_candidates(lines(t11)), "shell"@, CodeBlockType::CommandLine);
    let (t13, b13, _n13) = json_pass(t12, b12, us[12]);
    match html_tags_pass(t13, b13, us[13], 0, 0) {
        Some((t14, b14, _n14)) => Some((t14, b14)),
        None => None,
    }
}

impl ContentProcessor {
    /// A collect-then-replace pass over word candidates.
    fn protect_words(&mut self, text: Vec<char>, kind: CodeBlockType, lang: &str) -> (r: (Vec<char>, Ghost<Seq<Seq<char>>>))
        requires
            old(self).wf(),
        ensures
            final(self).wf(),
            all_placeholders(r.1@),
            apply_pass(text@, old(self).blocks(), r.1@, word_candidates(lines(text@), kind), lang@, kind)
                == (r.0@, final(self).blocks(), r.1@.len() as int),
    {
        let cands = word_candidates_exec(&text, kind);
        self.apply_candidates(text, &cands, lang, kind)
    }

    /// Protects code and other technical content in `content`: each pass of
    /// `protect_spec` in turn, the placeholders being fresh random ones.
    /// `None` where the HTML tag pass would slice the text off a character
    /// boundary. Restoring the result with the pieces stored gives `content`
    /// back, where nothing was stored before and the random placeholders
    /// drawn differ from each other and from everything in `content`
    /// (`law_protect_then_restore`).
    pub fn protect_code_blocks(&mut self, content: &str) -> (r: Option<String>)
        requires
            old(self).wf(),
        ensures
            final(self).wf(),
            exists|us: Seq<Seq<Seq<char>>>| #![trigger protect_spec(content@, old(self).blocks(), us)] {
                &&& us.len() == 14
                &&& forall|k: int| 0 <= k < 14 ==> all_placeholders(#[trigger] us[k])
                &&& match protect_spec(content@, old(self).blocks(), us) {
                    Some((t, bs)) => r matches Some(s) && s@ == t && final(self).blocks() == bs,
                    None => r is None,
                }
                &&& supplies_suffice(content@, old(self).blocks(), us)
                &&& (old(self).blocks().len() == 0 && fresh_supplies(content@, us)) ==> (r matches Some(s)
                    ==> restore_spec(final(self).blocks(), s@) == content@)
            },
    {
        let t0 = chars_of(content);
        let (t1, u1) = self.protect_fenced_code_blocks(t0);
        let (t2, u2) = self.protect_inline_code(t1);
        let (t6, uh) = self.protect_html_code_elements(t2);
        let ghost w3 = uh@[0];
        let ghost w4 = uh@[1];
        let ghost w5 = uh@[2];
        let ghost w6 = uh@[3];
        let api = api_candidates_exec(&t6);
        let (t7, u7) = self.apply_candidates(t6, &api, "api", CodeBlockType::ApiEndpoint);
        let (t8, u8) = self.protect_words(t7, CodeBlockType::FilePath, "path");
        let (t9, u9) = self.protect_words(t8, CodeBlockType::EnvVariable, "env");
        let (t10, u10) = self.protect_words(t9, CodeBlockType::VersionNumber, "version");
        let (t11, u11) = self.protect_words(t10, CodeBlockType::FunctionName, "function");
        let cmds = command_candidates_exec(&t11);
        let (t12, u12) = self.apply_candidates(t11, &cmds, "shell", CodeBlockType::CommandLine);
        let (t13, u13) = self.protect_json_data(t12);
        let (t14, u14) = self.protect_html_tags(t13);
        let ghost us = seq![u1@, u2@, w3, w4, w5, w6, u7@, u8@, u9@, u10@, u11@, u12@, u13@, u14@];
        assert(forall|k: int| 0 <= k < 14 ==> all_placeholders(#[trigger] us[k]));
        assert(us.len() == 14);
        let r = match t14 {
            Some(out) => {
                let s = string_of(&out);
                assert(protect_spec(content@, old(self).blocks(), us) == Some((s@, self.blocks())));
                Some(s)
            },
            None => {
                assert(protect_spec(content@, old(self).blocks(), us) is None);
                None
            },
        };
        assert(match protect_spec(content@, old(self).blocks(), us) {
            Some((t, bs)) => r matches Some(s) && s@ == t && self.blocks() == bs,
            None => r is None,
        });
        assert(supplies_suffice(content@, old(self).blocks(), us));
        proof {
            if old(self).blocks().len() == 0 && fresh_supplies(content@, us) {
                assert(old(self).blocks() =~= Seq::<BlockView>::empty());
                law_protect_then_restore(content@, us);
            }
        }
        r
    }
}

/// The `code`, `pre`, `script` and `style` elements, each in turn, with
/// their own supplies.
pub open spec fn html_code_elements_pass(t: Seq<char>, bs: Seq<BlockView>, us: Seq<Seq<Seq<char>>>) -> (Seq<char>, Seq<BlockView>) {
    let (t3, b3, _n3) = html_tag_pass(t, bs, us[0], 0, 0, "code"@, CodeBlockType::HtmlCode, None);
    let (t4, b4, _n4) = html_tag_pass(t3, b3, us[1], 0, 0, "pre"@, CodeBlockType::PreFormatted, None);
    let (t5, b5, _n5) = html_tag_pass(t4, b4, us[2], 0, 0, "script"@, CodeBlockType::ScriptTag, Some("javascript"@));
    let (t6, b6, _n6) = html_tag_pass(t5, b5, us[3], 0, 0, "style"@, CodeBlockType::StyleTag, Some("css"@));
    (t6, b6)
}

impl ContentProcessor {
    /// Protects the `code`, `pre`, `script` and `style` elements
    /// (`html_code_elements_pass`); gives the text and the four supplies.
    fn protect_html_code_elements(&mut self, text: Vec<char>) -> (r: (Vec<char>, Ghost<Seq<Seq<Seq<char>>>>))
        requires
            old(self).wf(),
        ensures
            final(self).wf(),
            r.1@.len() == 4,
            forall|k: int| 0 <= k < 4 ==> all_placeholders(#[trigger] r.1@[k]),
            html_code_elements_pass(text@, old(self).blocks(), r.1@) == (r.0@, final(self).blocks()),
            ({
                let (t3, b3, n3) = html_tag_pass(text@, old(self).blocks(), r.1@[0], 0, 0, "code"@, CodeBlockType::HtmlCode, None);
                let (t4, b4, n4) = html_tag_pass(t3, b3, r.1@[1], 0, 0, "pre"@, CodeBlockType::PreFormatted, None);
                let (t5, b5, n5) = html_tag_pass(t4, b4, r.1@[2], 0, 0, "script"@, CodeBlockType::ScriptTag, Some("javascript"@));
                let (t6, b6, n6) = html_tag_pass(t5, b5, r.1@[3], 0, 0, "style"@, CodeBlockType::StyleTag, Some("css"@));
                n3 == r.1@[0].len() && n4 == r.1@[1].len() && n5 == r.1@[2].len() && n6 == r.1@[3].len()
            }),
    {
        let (t3, u3) = self.protect_html_tag(text, "code", CodeBlockType::HtmlCode, None);
        let (t4, u4) = self.protect_html_tag(t3, "pre", CodeBlockType::PreFormatted, None);
        let (t5, u5) = self.protect_html_tag(t4, "script", CodeBlockType::ScriptTag, Some("javascript"));
        let (t6, u6) = self.protect_html_tag(t5, "style", CodeBlockType::StyleTag, Some("css"));
        let ghost us = seq![u3@, u4@, u5@, u6@];
        assert(forall|k: int| 0 <= k < 4 ==> all_placeholders(#[trigger] us[k]));
        (t6, Ghost(us))
    }

    /// Whether `text` is a version number (`is_version_number_spec`).
    pub fn is_version_number(&self, text: &str) -> (r: bool)
        ensures
            r == is_version_number_spec(text@),
    {
        version_number_exec(&chars_of(text))
    }
}

// ---------------------------------------------------------------------------
// Putting protected pieces back gives the text that was protected.
// ---------------------------------------------------------------------------

/// The identifier inside a placeholder.
pub open spec fn ph_id(p: Seq<char>) -> Seq<char> {
    p.subrange(13, 45)
}

proof fn lemma_placeholder_shape(p: Seq<char>)
    requires
        is_placeholder(p),
    ensures
        p.len() == 47,
        p[0] == '_',
        p[46] == '_',
        forall|i: int| 0 <= i < 13 ==> !crate::ids::is_lower_hex(#[trigger] p[i]),
        forall|i: int| 45 <= i < 47 ==> !crate::ids::is_lower_hex(#[trigger] p[i]),
        is_simple_uuid(ph_id(p)),
{
    reveal_strlit("__CODE_BLOCK_");
    reveal_strlit("__");
    assert forall|i: int| 0 <= i < 13 implies !crate::ids::is_lower_hex(#[trigger] p[i]) by {
        assert(p.take(13)[i] == p[i]);
    }
    assert forall|i: int| 45 <= i < 47 implies !crate::ids::is_lower_hex(#[trigger] p[i]) by {
        assert(p.skip(45)[i - 45] == p[i]);
    }
    assert(p.take(13)[0] == p[0]);
    assert(p.skip(45)[1] == p[46]);
}

/// A 32-character hexadecimal window that lies inside a placeholder is its
/// identifier.
proof fn lemma_window_in_placeholder(p: Seq<char>, g: Seq<char>, o: int)
    requires
        is_placeholder(p),
        is_simple_uuid(g),
        0 <= o,
        o + 32 <= 47,
        p.subrange(o, o + 32) == g,
    ensures
        o == 13,
{
    lemma_placeholder_shape(p);
    if o < 13 {
        assert(g[0] == p[o]);
    } else if o > 13 {
        assert(g[31] == p[o + 31]);
    }
}

/// Text without `from` is left as it is by replacing `from`.
proof fn lemma_replace_absent(s: Seq<char>, from: Seq<char>, to: Seq<char>)
    requires
        !has_match(s, from),
    ensures
        replace(s, from, to) == s,
    decreases s.len(),
{
    if from.len() == 0 || s.len() < from.len() {
    } else {
        assert(!is_match_at(s, from, 0));
        assert forall|i: int| !is_match_at(s.drop_first(), from, i) by {
            if is_match_at(s.drop_first(), from, i) {
                assert(s.subrange(i + 1, i + 1 + from.len()) =~= s.drop_first().subrange(i, i + from.len()));
                assert(is_match_at(s, from, i + 1));
            }
        }
        lemma_replace_absent(s.drop_first(), from, to);
        assert(seq![s[0]] + s.drop_first() =~= s);
    }
}

/// A match inside a suffix is a match of the whole.
proof fn lemma_match_in_skip(s: Seq<char>, n: int, g: Seq<char>, q: int)
    requires
        0 <= n <= s.len(),
        is_match_at(s.skip(n), g, q),
    ensures
        is_match_at(s, g, q + n),
{
    assert(s.subrange(q + n, q + n + g.len()) =~= s.skip(n).subrange(q, q + g.len()));
}

/// Where `replace(t, w, p)` starts with hexadecimal digits only, it starts
/// as `t` does.
proof fn lemma_replace_hex_prefix(t: Seq<char>, w: Seq<char>, p: Seq<char>, k: int)
    requires
        is_placeholder(p),
        w.len() > 0,
        0 <= k <= replace(t, w, p).len(),
        forall|i: int| 0 <= i < k ==> crate::ids::is_lower_hex(#[trigger] replace(t, w, p)[i]),
    ensures
        k <= t.len(),
        replace(t, w, p).take(k) == t.take(k),
    decreases t.len(),
{
    let r = replace(t, w, p);
    if t.len() < w.len() {
    } else if t.subrange(0, w.len() as int) == w {
        lemma_placeholder_shape(p);
        if k > 0 {
            assert(r[0] == p[0]);
        }
    } else {
        let r1 = replace(t.drop_first(), w, p);
        assert(r == seq![t[0]] + r1);
        if k > 0 {
            assert forall|i: int| 0 <= i < k - 1 implies crate::ids::is_lower_hex(#[trigger] r1[i]) by {
                assert(r[i + 1] == r1[i]);
            }
            lemma_replace_hex_prefix(t.drop_first(), w, p, k - 1);
            assert(r.take(k) =~= seq![t[0]] + r1.take(k - 1));
            assert(t.take(k) =~= seq![t[0]] + t.drop_first().take(k - 1));
        }
    }
}

/// A hexadecimal identifier found in `replace(t, w, p)` is in `t`, or is
/// the identifier of one of the placeholders put in.
proof fn lemma_id_in_replace(t: Seq<char>, w: Seq<char>, p: Seq<char>, g: Seq<char>, q: int)
    requires
        is_placeholder(p),
        w.len() > 0,
        is_simple_uuid(g),
        is_match_at(replace(t, w, p), g, q),
    ensures
        has_match(t, g) || (q >= 13 && is_match_at(replace(t, w, p), p, q - 13)),
    decreases t.len(),
{
    let r = replace(t, w, p);
    lemma_placeholder_shape(p);
    if t.len() < w.len() {
        assert(is_match_at(t, g, q));
    } else if t.subrange(0, w.len() as int) == w {
        let t1 = t.subrange(w.len() as int, t.len() as int);
        let r1 = replace(t1, w, p);
        assert(r == p + r1);
        if q + 32 <= 47 {
            assert(p.subrange(q, q + 32) =~= r.subrange(q, q + 32));
            lemma_window_in_placeholder(p, g, q);
            assert(r.subrange(0, 47) =~= p);
        } else if q < 47 {
            assert(g[46 - q] == r[46]);
            assert(r[46] == p[46]);
        } else {
            assert(r1.subrange(q - 47, q - 47 + 32) =~= r.subrange(q, q + 32));
            assert(is_match_at(r1, g, q - 47));
            lemma_id_in_replace(t1, w, p, g, q - 47);
            if has_match(t1, g) {
                let i = choose|i: int| is_match_at(t1, g, i);
                assert(t1 == t.skip(w.len() as int));
                lemma_match_in_skip(t, w.len() as int, g, i);
            } else {
                assert(r.subrange(q - 13, q - 13 + 47) =~= r1.subrange(q - 47 - 13, q - 47 - 13 + 47));
            }
        }
    } else {
        let t1 = t.drop_first();
        let r1 = replace(t1, w, p);
        assert(r == seq![t[0]] + r1);
        if q == 0 {
            assert forall|i: int| 0 <= i < 32 implies crate::ids::is_lower_hex(#[trigger] r[i]) by {
                assert(r[i] == g[i]);
            }
            lemma_replace_hex_prefix(t, w, p, 32);
            assert(t.subrange(0, 32) =~= t.take(32));
            assert(r.subrange(0, 32) =~= r.take(32));
            assert(is_match_at(t, g, 0));
        } else {
            assert(r1.subrange(q - 1, q - 1 + 32) =~= r.subrange(q, q + 32));
            lemma_id_in_replace(t1, w, p, g, q - 1);
            if has_match(t1, g) {
                let i = choose|i: int| is_match_at(t1, g, i);
                lemma_match_in_skip(t, 1, g, i);
            } else {
                assert(r.subrange(q - 13, q - 13 + 47) =~= r1.subrange(q - 1 - 13, q - 1 - 13 + 47));
            }
        }
    }
}

/// A match of a placeholder holds a match of its identifier.
proof fn lemma_id_of_match(t: Seq<char>, p: Seq<char>, i: int)
    requires
        is_placeholder(p),
        is_match_at(t, p, i),
    ensures
        is_match_at(t, ph_id(p), i + 13),
{
    assert(t.subrange(i + 13, i + 45) =~= t.subrange(i, i + 47).subrange(13, 45));
}

/// Replacing `w` by a placeholder whose identifier is not in `t`, then the
/// placeholder by `w`, gives `t` back.
proof fn lemma_replace_back(t: Seq<char>, w: Seq<char>, p: Seq<char>)
    requires
        is_placeholder(p),
        !has_match(t, ph_id(p)),
    ensures
        replace(replace(t, w, p), p, w) == t,
    decreases t.len(),
{
    lemma_placeholder_shape(p);
    assert(!has_match(t, p)) by {
        if has_match(t, p) {
            let i = choose|i: int| is_match_at(t, p, i);
            lemma_id_of_match(t, p, i);
        }
    }
    if w.len() == 0 || t.len() < w.len() {
        lemma_replace_absent(t, p, w);
    } else if t.subrange(0, w.len() as int) == w {
        let t1 = t.subrange(w.len() as int, t.len() as int);
        let r1 = replace(t1, w, p);
        assert(!has_match(t1, ph_id(p))) by {
            if has_match(t1, ph_id(p)) {
                let i = choose|i: int| is_match_at(t1, ph_id(p), i);
                assert(t1 == t.skip(w.len() as int));
                lemma_match_in_skip(t, w.len() as int, ph_id(p), i);
            }
        }
        lemma_replace_back(t1, w, p);
        let x = p + r1;
        assert(x.subrange(0, 47) =~= p);
        assert(x.subrange(47, x.len() as int) =~= r1);
        assert(w + t1 =~= t);
    } else {
        let t1 = t.drop_first();
        let r1 = replace(t1, w, p);
        assert(!has_match(t1, ph_id(p))) by {
            if has_match(t1, ph_id(p)) {
                let i = choose|i: int| is_match_at(t1, ph_id(p), i);
                lemma_match_in_skip(t, 1, ph_id(p), i);
            }
        }
        lemma_replace_back(t1, w, p);
        let x = seq![t[0]] + r1;
        if x.len() >= 47 {
            assert(!is_match_at(x, p, 0)) by {
                if is_match_at(x, p, 0) {
                    lemma_id_of_match(x, p, 0);
                    assert(r1.subrange(12, 44) =~= x.subrange(13, 45));
                    assert(is_match_at(r1, ph_id(p), 12));
                    lemma_id_in_replace(t1, w, p, ph_id(p), 12);
                }
            }
            assert(x.subrange(0, 47) != p);
            assert(x.drop_first() =~= r1);
        }
        assert(seq![t[0]] + t1 =~= t);
    }
}

/// A hexadecimal identifier found in a splice of a placeholder into `t` is
/// in `t`, or is the placeholder's own.
proof fn lemma_id_in_splice(t: Seq<char>, a: int, e: int, p: Seq<char>, g: Seq<char>, q: int)
    requires
        is_placeholder(p),
        0 <= a <= e <= t.len(),
        is_simple_uuid(g),
        is_match_at(splice(t, a, e, p), g, q),
    ensures
        has_match(t, g) || q == a + 13,
{
    let x = splice(t, a, e, p);
    lemma_placeholder_shape(p);
    if q + 32 <= a {
        assert(t.subrange(q, q + 32) =~= x.subrange(q, q + 32));
        assert(is_match_at(t, g, q));
    } else if q < a {
        assert(g[a - q] == x[a]);
        assert(x[a] == p[0]);
    } else if q + 32 <= a + 47 {
        assert(p.subrange(q - a, q - a + 32) =~= x.subrange(q, q + 32));
        lemma_window_in_placeholder(p, g, q - a);
    } else if q < a + 47 {
        assert(g[a + 46 - q] == x[a + 46]);
        assert(x[a + 46] == p[46]);
    } else {
        let d = q - a - 47 + e;
        assert(t.subrange(d, d + 32) =~= x.subrange(q, q + 32));
        assert(is_match_at(t, g, d));
    }
}

/// Text that does not start a match before `x.len()` is replaced after it.
proof fn lemma_replace_after_prefix(x: Seq<char>, z: Seq<char>, p: Seq<char>, c: Seq<char>)
    requires
        p.len() > 0,
        forall|i: int| 0 <= i < x.len() ==> !is_match_at(x + z, p, i),
    ensures
        replace(x + z, p, c) == x + replace(z, p, c),
    decreases x.len(),
{
    if x.len() > 0 {
        let y = x + z;
        if y.len() < p.len() {
            assert(z.len() < p.len());
            assert(replace(z, p, c) == z);
        } else {
            assert(!is_match_at(y, p, 0));
            assert(y.subrange(0, p.len() as int) != p);
            assert forall|i: int| 0 <= i < x.drop_first().len() implies !is_match_at(x.drop_first() + z, p, i) by {
                if is_match_at(x.drop_first() + z, p, i) {
                    assert(y.subrange(i + 1, i + 1 + p.len()) =~= (x.drop_first() + z).subrange(i, i + p.len()));
                    assert(is_match_at(y, p, i + 1));
                }
            }
            lemma_replace_after_prefix(x.drop_first(), z, p, c);
            assert(y.drop_first() =~= x.drop_first() + z);
            assert(seq![x[0]] + (x.drop_first() + replace(z, p, c)) =~= x + replace(z, p, c));
        }
    } else {
        assert(x + z =~= z);
        assert(x + replace(z, p, c) =~= replace(z, p, c));
    }
}

/// Splicing a placeholder whose identifier is not in `t` over `t[a..e]`,
/// then replacing the placeholder by `t[a..e]`, gives `t` back.
proof fn lemma_splice_back(t: Seq<char>, a: int, e: int, p: Seq<char>)
    requires
        is_placeholder(p),
        0 <= a <= e <= t.len(),
        !has_match(t, ph_id(p)),
    ensures
        replace(splice(t, a, e, p), p, t.subrange(a, e)) == t,
{
    lemma_placeholder_shape(p);
    let x = splice(t, a, e, p);
    let c = t.subrange(a, e);
    let y = t.skip(e);
    assert forall|i: int| 0 <= i < t.take(a).len() implies !is_match_at(t.take(a) + (p + y), p, i) by {
        assert(t.take(a) + (p + y) =~= x);
        if is_match_at(x, p, i) {
            lemma_id_of_match(x, p, i);
            lemma_id_in_splice(t, a, e, p, ph_id(p), i + 13);
        }
    }
    lemma_replace_after_prefix(t.take(a), p + y, p, c);
    assert(t.take(a) + (p + y) =~= x);
    let py = p + y;
    assert(py.subrange(0, 47) =~= p);
    assert(py.subrange(47, py.len() as int) =~= y);
    assert(!has_match(y, p)) by {
        if has_match(y, p) {
            let i = choose|i: int| is_match_at(y, p, i);
            lemma_id_of_match(y, p, i);
            lemma_match_in_skip(t, e, ph_id(p), i + 13);
        }
    }
    lemma_replace_absent(y, p, c);
    assert(t.take(a) + (c + y) =~= t);
}

/// Putting a placeholder in keeps every other identifier out of the text.
proof fn lemma_fresh_after_replace(t: Seq<char>, w: Seq<char>, p: Seq<char>, g: Seq<char>)
    requires
        is_placeholder(p),
        is_simple_uuid(g),
        g != ph_id(p),
        !has_match(t, g),
    ensures
        !has_match(replace(t, w, p), g),
{
    if w.len() == 0 {
        assert(replace(t, w, p) == t);
    } else if has_match(replace(t, w, p), g) {
        let q = choose|q: int| is_match_at(replace(t, w, p), g, q);
        lemma_id_in_replace(t, w, p, g, q);
        lemma_id_of_match(replace(t, w, p), p, q - 13);
    }
}

/// Splicing a placeholder in keeps every other identifier out of the text.
proof fn lemma_fresh_after_splice(t: Seq<char>, a: int, e: int, p: Seq<char>, g: Seq<char>)
    requires
        is_placeholder(p),
        0 <= a <= e <= t.len(),
        is_simple_uuid(g),
        g != ph_id(p),
        !has_match(t, g),
    ensures
        !has_match(splice(t, a, e, p), g),
{
    if has_match(splice(t, a, e, p), g) {
        let q = choose|q: int| is_match_at(splice(t, a, e, p), g, q);
        lemma_id_in_splice(t, a, e, p, g, q);
        let x = splice(t, a, e, p);
        assert(x.subrange(a + 13, a + 45) =~= p.subrange(13, 45));
    }
}

/// Identifiers that differ pairwise.
pub open spec fn ids_distinct(pend: Seq<Seq<char>>) -> bool {
    forall|i: int, j: int| 0 <= i < j < pend.len() ==> ph_id(#[trigger] pend[i]) != ph_id(#[trigger] pend[j])
}

/// Where protecting `t0` stands: putting the pieces `bs` back into `t`
/// gives `t0`; the placeholders still to be drawn, `pend`, have different
/// identifiers, none of which is in `t`, and none is a key of `bs`.
pub open spec fn restorable(t0: Seq<char>, t: Seq<char>, bs: Seq<BlockView>, pend: Seq<Seq<char>>) -> bool {
    &&& restore_spec(bs, t) == t0
    &&& all_placeholders(pend)
    &&& ids_distinct(pend)
    &&& forall|i: int| 0 <= i < pend.len() ==> !has_match(t, ph_id(#[trigger] pend[i]))
    &&& forall|i: int| 0 <= i < pend.len() ==> find_key(bs, #[trigger] pend[i]) is None
}

/// Fewer placeholders to come keep a state restorable.
proof fn lemma_restorable_suffix(t0: Seq<char>, t: Seq<char>, bs: Seq<BlockView>, a: Seq<Seq<char>>, b: Seq<Seq<char>>)
    requires
        restorable(t0, t, bs, a + b),
    ensures
        restorable(t0, t, bs, b),
{
    let ab = a + b;
    assert forall|i: int| 0 <= i < b.len() implies is_placeholder(#[trigger] b[i]) by {
        assert(ab[a.len() + i] == b[i]);
    }
    assert forall|i: int, j: int| 0 <= i < j < b.len() implies ph_id(#[trigger] b[i]) != ph_id(#[trigger] b[j]) by {
        assert(ab[a.len() + i] == b[i]);
        assert(ab[a.len() + j] == b[j]);
    }
    assert forall|i: int| 0 <= i < b.len() implies !has_match(t, ph_id(#[trigger] b[i])) by {
        assert(ab[a.len() + i] == b[i]);
    }
    assert forall|i: int| 0 <= i < b.len() implies find_key(bs, #[trigger] b[i]) is None by {
        assert(ab[a.len() + i] == b[i]);
    }
}

/// After one piece is stored under a placeholder with a different key, the
/// other keys are still not found.
proof fn lemma_find_key_push(bs: Seq<BlockView>, b: BlockView, key: Seq<char>)
    requires
        find_key(bs, key) is None,
        b.0 != key,
    ensures
        find_key(bs.push(b), key) is None,
{
    assert(bs.push(b).drop_last() =~= bs);
}

/// Drawing the next placeholder for a piece whose text is replaced
/// everywhere keeps the state restorable.
proof fn lemma_step_replace(t0: Seq<char>, t: Seq<char>, bs: Seq<BlockView>, pend: Seq<Seq<char>>, b: BlockView)
    requires
        restorable(t0, t, bs, pend),
        pend.len() > 0,
        b.0 == pend[0],
    ensures
        restorable(t0, replace(t, b.1, b.0), insert_block(bs, b), pend.drop_first()),
{
    let p = pend[0];
    let t2 = replace(t, b.1, p);
    assert(is_placeholder(p));
    assert(!has_match(t, ph_id(p)));
    assert(insert_block(bs, b) == bs.push(b));
    let bs2 = bs.push(b);
    assert(bs2.drop_last() =~= bs);
    assert(bs2.last() == b);
    lemma_replace_back(t, b.1, p);
    assert(restore_spec(bs2, t2) == restore_spec(bs, replace(t2, p, b.1)));
    let rest = pend.drop_first();
    assert forall|i: int| 0 <= i < rest.len() implies !has_match(t2, ph_id(#[trigger] rest[i])) && find_key(bs2, rest[i]) is None by {
        assert(rest[i] == pend[i + 1]);
        assert(ph_id(pend[0]) != ph_id(pend[i + 1]));
        lemma_placeholder_shape(pend[i + 1]);
        lemma_fresh_after_replace(t, b.1, p, ph_id(rest[i]));
        lemma_find_key_push(bs, b, rest[i]);
    }
    assert forall|i: int, j: int| 0 <= i < j < rest.len() implies ph_id(#[trigger] rest[i]) != ph_id(#[trigger] rest[j]) by {
        assert(rest[i] == pend[i + 1]);
        assert(rest[j] == pend[j + 1]);
    }
    assert forall|i: int| 0 <= i < rest.len() implies is_placeholder(#[trigger] rest[i]) by {
        assert(rest[i] == pend[i + 1]);
    }
}

/// Drawing the next placeholder for the piece `t[a..e]` spliced out keeps
/// the state restorable.
proof fn lemma_step_splice(t0: Seq<char>, t: Seq<char>, bs: Seq<BlockView>, pend: Seq<Seq<char>>, a: int, e: int, b: BlockView)
    requires
        restorable(t0, t, bs, pend),
        pend.len() > 0,
        0 <= a <= e <= t.len(),
        b.0 == pend[0],
        b.1 == t.subrange(a, e),
    ensures
        restorable(t0, splice(t, a, e, b.0), insert_block(bs, b), pend.drop_first()),
{
    let p = pend[0];
    let t2 = splice(t, a, e, p);
    assert(is_placeholder(p));
    assert(!has_match(t, ph_id(p)));
    assert(insert_block(bs, b) == bs.push(b));
    let bs2 = bs.push(b);
    assert(bs2.drop_last() =~= bs);
    assert(bs2.last() == b);
    lemma_splice_back(t, a, e, p);
    assert(restore_spec(bs2, t2) == restore_spec(bs, replace(t2, p, b.1)));
    let rest = pend.drop_first();
    assert forall|i: int| 0 <= i < rest.len() implies !has_match(t2, ph_id(#[trigger] rest[i])) && find_key(bs2, rest[i]) is None by {
        assert(rest[i] == pend[i + 1]);
        assert(ph_id(pend[0]) != ph_id(pend[i + 1]));
        lemma_placeholder_shape(pend[i + 1]);
        lemma_fresh_after_splice(t, a, e, p, ph_id(rest[i]));
        lemma_find_key_push(bs, b, rest[i]);
    }
    assert forall|i: int, j: int| 0 <= i < j < rest.len() implies ph_id(#[trigger] rest[i]) != ph_id(#[trigger] rest[j]) by {
        assert(rest[i] == pend[i + 1]);
        assert(rest[j] == pend[j + 1]);
    }
    assert forall|i: int| 0 <= i < rest.len() implies is_placeholder(#[trigger] rest[i]) by {
        assert(rest[i] == pend[i + 1]);
    }
}

/// The `j`-th placeholder of a supply is the first of those still to come.
proof fn lemma_draw(sup: Seq<Seq<char>>, j: int, rest: Seq<Seq<char>>)
    requires
        all_placeholders(sup),
        0 <= j < sup.len(),
    ensures
        ph_at(sup, j) == (sup.skip(j) + rest)[0],
        (sup.skip(j) + rest).drop_first() == sup.skip(j + 1) + rest,
        (sup.skip(j) + rest).len() > 0,
{
    assert((sup.skip(j) + rest).drop_first() =~= sup.skip(j + 1) + rest);
}

proof fn lemma_fenced_count(t: Seq<char>, bs: Seq<BlockView>, sup: Seq<Seq<char>>, j: int, from: int)
    ensures
        fenced_pass(t, bs, sup, j, from).2 >= j,
    decreases t.len() - from,
{
    match next_match(t, fence(), from) {
        None => {},
        Some(a) => {
            lemma_next_match_facts(t, fence(), from);
            if a < from || a + 3 > t.len() {
            } else {
                match next_match(t, fence(), a + 3) {
                    None => lemma_fenced_count(t, bs, sup, j, a + 3),
                    Some(e0) => {
                        lemma_next_match_facts(t, fence(), a + 3);
                        if e0 < a + 3 || e0 + 3 > t.len() {
                        } else {
                            let end = e0 + 3;
                            let fle = match next_match(t, seq!['\n'], a) {
                                Some(nl) => nl - a,
                                None => 3,
                            };
                            let lang = if fle > 3 && a + fle <= t.len() {
                                Some(trim(t.subrange(a + 3, a + fle)))
                            } else {
                                None
                            };
                            let ph = ph_at(sup, j);
                            let b = (ph, t.subrange(a, end), lang, CodeBlockType::FencedCode);
                            lemma_fenced_count(splice(t, a, end, ph), insert_block(bs, b), sup, j + 1, a + ph.len());
                        }
                    },
                }
            }
        },
    }
}

proof fn lemma_fenced_restorable(t0: Seq<char>, t: Seq<char>, bs: Seq<BlockView>, sup: Seq<Seq<char>>, j: int, from: int, rest: Seq<Seq<char>>)
    requires
        0 <= j <= sup.len(),
        all_placeholders(sup),
        restorable(t0, t, bs, sup.skip(j) + rest),
        fenced_pass(t, bs, sup, j, from).2 <= sup.len(),
    ensures
        restorable(t0, fenced_pass(t, bs, sup, j, from).0, fenced_pass(t, bs, sup, j, from).1, sup.skip(fenced_pass(t, bs, sup, j, from).2) + rest),
    decreases t.len() - from,
{
    match next_match(t, fence(), from) {
        None => {},
        Some(a) => {
            lemma_next_match_facts(t, fence(), from);
            if a < from || a + 3 > t.len() {
            } else {
                match next_match(t, fence(), a + 3) {
                    None => lemma_fenced_restorable(t0, t, bs, sup, j, a + 3, rest),
                    Some(e0) => {
                        lemma_next_match_facts(t, fence(), a + 3);
                        if e0 < a + 3 || e0 + 3 > t.len() {
                        } else {
                            let end = e0 + 3;
                            let fle = match next_match(t, seq!['\n'], a) {
                                Some(nl) => nl - a,
                                None => 3,
                            };
                            let lang = if fle > 3 && a + fle <= t.len() {
                                Some(trim(t.subrange(a + 3, a + fle)))
                            } else {
                                None
                            };
                            let ph = ph_at(sup, j);
                            let b = (ph, t.subrange(a, end), lang, CodeBlockType::FencedCode);
                            lemma_fenced_count(splice(t, a, end, ph), insert_block(bs, b), sup, j + 1, a + ph.len());
                            lemma_draw(sup, j, rest);
                            lemma_step_splice(t0, t, bs, sup.skip(j) + rest, a, end, b);
                            lemma_fenced_restorable(t0, splice(t, a, end, ph), insert_block(bs, b), sup, j + 1, a + ph.len(), rest);
                        }
                    },
                }
            }
        },
    }
}

proof fn lemma_inline_count(t: Seq<char>, bs: Seq<BlockView>, sup: Seq<Seq<char>>, j: int, from: int)
    ensures
        inline_pass(t, bs, sup, j, from).2 >= j,
    decreases t.len() - from,
{
    match next_match(t, seq!['`'], from) {
        None => {},
        Some(a) => {
            lemma_next_match_facts(t, seq!['`'], from);
            if a < from || a + 1 > t.len() {
            } else {
                match next_match(t, seq!['`'], a + 1) {
                    None => lemma_inline_count(t, bs, sup, j, a + 1),
                    Some(e0) => {
                        lemma_next_match_facts(t, seq!['`'], a + 1);
                        if e0 < a + 1 || e0 + 1 > t.len() {
                        } else {
                            let end = e0 + 1;
                            let code = t.subrange(a + 1, e0);
                            if !has_match(code, seq!['\n']) && trim(code).len() > 0 {
                                let ph = ph_at(sup, j);
                                let b = (ph, t.subrange(a, end), None, CodeBlockType::InlineCode);
                                lemma_inline_count(splice(t, a, end, ph), insert_block(bs, b), sup, j + 1, a + ph.len());
                            } else {
                                lemma_inline_count(t, bs, sup, j, a + 1);
                            }
                        }
                    },
                }
            }
        },
    }
}

proof fn lemma_inline_restorable(t0: Seq<char>, t: Seq<char>, bs: Seq<BlockView>, sup: Seq<Seq<char>>, j: int, from: int, rest: Seq<Seq<char>>)
    requires
        0 <= j <= sup.len(),
        all_placeholders(sup),
        restorable(t0, t, bs, sup.skip(j) + rest),
        inline_pass(t, bs, sup, j, from).2 <= sup.len(),
    ensures
        restorable(t0, inline_pass(t, bs, sup, j, from).0, inline_pass(t, bs, sup, j, from).1, sup.skip(inline_pass(t, bs, sup, j, from).2) + rest),
    decreases t.len() - from,
{
    match next_match(t, seq!['`'], from) {
        None => {},
        Some(a) => {
            lemma_next_match_facts(t, seq!['`'], from);
            if a < from || a + 1 > t.len() {
            } else {
                match next_match(t, seq!['`'], a + 1) {
                    None => lemma_inline_restorable(t0, t, bs, sup, j, a + 1, rest),
                    Some(e0) => {
                        lemma_next_match_facts(t, seq!['`'], a + 1);
                        if e0 < a + 1 || e0 + 1 > t.len() {
                        } else {
                            let end = e0 + 1;
                            let code = t.subrange(a + 1, e0);
                            if !has_match(code, seq!['\n']) && trim(code).len() > 0 {
                                let ph = ph_at(sup, j);
                                let b = (ph, t.subrange(a, end), None, CodeBlockType::InlineCode);
                                lemma_inline_count(splice(t, a, end, ph), insert_block(bs, b), sup, j + 1, a + ph.len());
                                lemma_draw(sup, j, rest);
                                lemma_step_splice(t0, t, bs, sup.skip(j) + rest, a, end, b);
                                lemma_inline_restorable(t0, splice(t, a, end, ph), insert_block(bs, b), sup, j + 1, a + ph.len(), rest);
                            } else {
                                lemma_inline_restorable(t0, t, bs, sup, j, a + 1, rest);
                            }
                        }
                    },
                }
            }
        },
    }
}

proof fn lemma_html_tag_count(
    t: Seq<char>,
    bs: Seq<BlockView>,
    sup: Seq<Seq<char>>,
    j: int,
    from: int,
    tag: Seq<char>,
    kind: CodeBlockType,
    lang: Option<Seq<char>>,
)
    ensures
        html_tag_pass(t, bs, sup, j, from, tag, kind, lang).2 >= j,
    decreases t.len() - from,
{
    let st = seq!['<'] + tag;
    let et = seq!['<', '/'] + tag + seq!['>'];
    match next_match(t, st, from) {
        None => {},
        Some(a) => {
            lemma_next_match_facts(t, st, from);
            if a < from || a + st.len() > t.len() {
            } else {
                match next_match(t, seq!['>'], a) {
                    None => lemma_html_tag_count(t, bs, sup, j, a + st.len(), tag, kind, lang),
                    Some(g) => {
                        lemma_next_match_facts(t, seq!['>'], a);
                        if g < a || g + 1 > t.len() {
                        } else {
                            let close = g + 1;
                            match next_match(t, et, close) {
                                None => lemma_html_tag_count(t, bs, sup, j, close, tag, kind, lang),
                                Some(e) => {
                                    lemma_next_match_facts(t, et, close);
                                    if e < close || e + et.len() > t.len() {
                                    } else {
                                        let end = e + et.len();
                                        let ph = ph_at(sup, j);
                                        let b = (ph, t.subrange(a, end), lang, kind);
                                        lemma_html_tag_count(splice(t, a, end, ph), insert_block(bs, b), sup, j + 1, a + ph.len(), tag, kind, lang);
                                    }
                                },
                            }
                        }
                    },
                }
            }
        },
    }
}

proof fn lemma_html_tag_restorable(
    t0: Seq<char>,
    t: Seq<char>,
    bs: Seq<BlockView>,
    sup: Seq<Seq<char>>,
    j: int,
    from: int,
    tag: Seq<char>,
    kind: CodeBlockType,
    lang: Option<Seq<char>>,
    rest: Seq<Seq<char>>,
)
    requires
        0 <= j <= sup.len(),
        all_placeholders(sup),
        restorable(t0, t, bs, sup.skip(j) + rest),
        html_tag_pass(t, bs, sup, j, from, tag, kind, lang).2 <= sup.len(),
    ensures
        restorable(
            t0,
            html_tag_pass(t, bs, sup, j, from, tag, kind, lang).0,
            html_tag_pass(t, bs, sup, j, from, tag, kind, lang).1,
            sup.skip(html_tag_pass(t, bs, sup, j, from, tag, kind, lang).2) + rest,
        ),
    decreases t.len() - from,
{
    let st = seq!['<'] + tag;
    let et = seq!['<', '/'] + tag + seq!['>'];
    match next_match(t, st, from) {
        None => {},
        Some(a) => {
            lemma_next_match_facts(t, st, from);
            if a < from || a + st.len() > t.len() {
            } else {
                match next_match(t, seq!['>'], a) {
                    None => lemma_html_tag_restorable(t0, t, bs, sup, j, a + st.len(), tag, kind, lang, rest),
                    Some(g) => {
                        lemma_next_match_facts(t, seq!['>'], a);
                        if g < a || g + 1 > t.len() {
                        } else {
                            let close = g + 1;
                            match next_match(t, et, close) {
                                None => lemma_html_tag_restorable(t0, t, bs, sup, j, close, tag, kind, lang, rest),
                                Some(e) => {
                                    lemma_next_match_facts(t, et, close);
                                    if e < close || e + et.len() > t.len() {
                                    } else {
                                        let end = e + et.len();
                                        let ph = ph_at(sup, j);
                                        let b = (ph, t.subrange(a, end), lang, kind);
                                        lemma_html_tag_count(splice(t, a, end, ph), insert_block(bs, b), sup, j + 1, a + ph.len(), tag, kind, lang);
                                        lemma_draw(sup, j, rest);
                                        lemma_step_splice(t0, t, bs, sup.skip(j) + rest, a, end, b);
                                        lemma_html_tag_restorable(t0, splice(t, a, end, ph), insert_block(bs, b), sup, j + 1, a + ph.len(), tag, kind, lang, rest);
                                    }
                                },
                            }
                        }
                    },
                }
            }
        },
    }
}

proof fn lemma_apply_restorable(
    t0: Seq<char>,
    t: Seq<char>,
    bs: Seq<BlockView>,
    sup: Seq<Seq<char>>,
    cands: Seq<Seq<char>>,
    lang: Seq<char>,
    kind: CodeBlockType,
    rest: Seq<Seq<char>>,
)
    requires
        all_placeholders(sup),
        cands.len() <= sup.len(),
        restorable(t0, t, bs, sup + rest),
    ensures
        restorable(t0, replace_all(t, sup, cands), insert_all(bs, sup, cands, lang, kind), sup.skip(cands.len() as int) + rest),
    decreases cands.len(),
{
    if cands.len() == 0 {
        assert(sup.skip(0) =~= sup);
    } else {
        let k = cands.len() - 1;
        lemma_apply_restorable(t0, t, bs, sup, cands.drop_last(), lang, kind, rest);
        lemma_draw(sup, k, rest);
        let b = (ph_at(sup, k), cands.last(), Some(lang), kind);
        lemma_step_replace(
            t0,
            replace_all(t, sup, cands.drop_last()),
            insert_all(bs, sup, cands.drop_last(), lang, kind),
            sup.skip(k) + rest,
            b,
        );
    }
}

proof fn lemma_json_restorable(t0: Seq<char>, t: Seq<char>, bs: Seq<BlockView>, sup: Seq<Seq<char>>, rest: Seq<Seq<char>>)
    requires
        all_placeholders(sup),
        restorable(t0, t, bs, sup + rest),
        json_pass(t, bs, sup).2 <= sup.len(),
    ensures
        restorable(t0, json_pass(t, bs, sup).0, json_pass(t, bs, sup).1, sup.skip(json_pass(t, bs, sup).2) + rest),
{
    assert(sup.skip(0) =~= sup);
    match json_scan(t, 0, 0, None) {
        None => {},
        Some((s, e)) => {
            let js = t.subrange(s, e);
            lemma_draw(sup, 0, rest);
            let b = (ph_at(sup, 0), js, Some("json"@), CodeBlockType::JsonData);
            lemma_step_replace(t0, t, bs, sup.skip(0) + rest, b);
        },
    }
}

proof fn lemma_html_tags_count(t: Seq<char>, bs: Seq<BlockView>, sup: Seq<Seq<char>>, j: int, pos: int)
    ensures
        html_tags_pass(t, bs, sup, j, pos) matches Some(r) ==> r.2 >= j,
    decreases count_char(t, '<'), room(t, pos),
{
    match char_index_at(t, pos) {
        None => {},
        Some(k) => match next_match(t, seq!['<'], k) {
            None => {},
            Some(a) => {
                lemma_next_match_facts(t, seq!['<'], k);
                lemma_char_index_facts(t, pos);
                if a < k || a >= t.len() || k < 0 {
                } else {
                    let ab = utf8_len(t.take(a)) as int;
                    lemma_utf8_len_prefix_mono(t, k, a);
                    lemma_utf8_prefix_strict(t, a, a + 1);
                    lemma_utf8_len_prefix_mono(t, a + 1, t.len() as int);
                    assert(t.take(t.len() as int) =~= t);
                    match next_match(t, seq!['>'], a) {
                        None => lemma_html_tags_count(t, bs, sup, j, ab + 1),
                        Some(g) => {
                            lemma_next_match_facts(t, seq!['>'], a);
                            if g < a || g >= t.len() {
                            } else {
                                let tag = t.subrange(a, g + 1);
                                if utf8_len(tag) > 2 && unicode_alphabetic(tag[1]) {
                                    let ph = ph_at(sup, j);
                                    assert(t.subrange(a, a + 1)[0] == t[a]);
                                    lemma_tag_replace_count(t, a, g, ph);
                                    lemma_html_tags_count(
                                        replace(t, tag, ph),
                                        insert_block(bs, (ph, tag, Some("html"@), CodeBlockType::HtmlTag)),
                                        sup,
                                        j + 1,
                                        ab + ph.len(),
                                    );
                                } else {
                                    lemma_utf8_prefix_strict(t, k, g + 1);
                                    lemma_utf8_len_prefix_mono(t, g + 1, t.len() as int);
                                    lemma_html_tags_count(t, bs, sup, j, utf8_len(t.take(g + 1)) as int);
                                }
                            }
                        },
                    }
                }
            },
        },
    }
}

proof fn lemma_html_tags_restorable(t0: Seq<char>, t: Seq<char>, bs: Seq<BlockView>, sup: Seq<Seq<char>>, j: int, pos: int, rest: Seq<Seq<char>>)
    requires
        0 <= j <= sup.len(),
        all_placeholders(sup),
        restorable(t0, t, bs, sup.skip(j) + rest),
        html_tags_pass(t, bs, sup, j, pos) matches Some(r) ==> r.2 <= sup.len(),
    ensures
        html_tags_pass(t, bs, sup, j, pos) matches Some(r) ==> restorable(t0, r.0, r.1, sup.skip(r.2) + rest),
    decreases count_char(t, '<'), room(t, pos),
{
    match char_index_at(t, pos) {
        None => {},
        Some(k) => match next_match(t, seq!['<'], k) {
            None => {},
            Some(a) => {
                lemma_next_match_facts(t, seq!['<'], k);
                lemma_char_index_facts(t, pos);
                if a < k || a >= t.len() || k < 0 {
                } else {
                    let ab = utf8_len(t.take(a)) as int;
                    lemma_utf8_len_prefix_mono(t, k, a);
                    lemma_utf8_prefix_strict(t, a, a + 1);
                    lemma_utf8_len_prefix_mono(t, a + 1, t.len() as int);
                    assert(t.take(t.len() as int) =~= t);
                    match next_match(t, seq!['>'], a) {
                        None => lemma_html_tags_restorable(t0, t, bs, sup, j, ab + 1, rest),
                        Some(g) => {
                            lemma_next_match_facts(t, seq!['>'], a);
                            if g < a || g >= t.len() {
                            } else {
                                let tag = t.subrange(a, g + 1);
                                if utf8_len(tag) > 2 && unicode_alphabetic(tag[1]) {
                                    let ph = ph_at(sup, j);
                                    assert(t.subrange(a, a + 1)[0] == t[a]);
                                    lemma_tag_replace_count(t, a, g, ph);
                                    let b = (ph, tag, Some("html"@), CodeBlockType::HtmlTag);
                                    lemma_html_tags_count(replace(t, tag, ph), insert_block(bs, b), sup, j + 1, ab + ph.len());
                                    if html_tags_pass(t, bs, sup, j, pos) is Some {
                                        lemma_draw(sup, j, rest);
                                        lemma_step_replace(t0, t, bs, sup.skip(j) + rest, b);
                                        lemma_html_tags_restorable(t0, replace(t, tag, ph), insert_block(bs, b), sup, j + 1, ab + ph.len(), rest);
                                    }
                                } else {
                                    lemma_utf8_prefix_strict(t, k, g + 1);
                                    lemma_utf8_len_prefix_mono(t, g + 1, t.len() as int);
                                    lemma_html_tags_restorable(t0, t, bs, sup, j, utf8_len(t.take(g + 1)) as int, rest);
                                }
                            }
                        },
                    }
                }
            },
        },
    }
}

/// The placeholders of the supplies from the `k`-th on, in order.
pub open spec fn supplies_from(us: Seq<Seq<Seq<char>>>, k: int) -> Seq<Seq<char>>
    decreases us.len() - k,
{
    if k < 0 || k >= us.len() {
        seq![]
    } else {
        us[k] + supplies_from(us, k + 1)
    }
}

/// Fresh supplies for protecting `t`: fourteen supplies of placeholders,
/// all with different identifiers, none of which occurs in `t`.
pub open spec fn fresh_supplies(t: Seq<char>, us: Seq<Seq<Seq<char>>>) -> bool {
    &&& us.len() == 14
    &&& forall|k: int| 0 <= k < 14 ==> all_placeholders(#[trigger] us[k])
    &&& ids_distinct(supplies_from(us, 0))
    &&& forall|i: int| 0 <= i < supplies_from(us, 0).len() ==> !has_match(t, ph_id(#[trigger] supplies_from(us, 0)[i]))
}

/// Each pass of `protect_spec` draws no more placeholders than its supply
/// holds.
pub open spec fn supplies_suffice(t: Seq<char>, bs: Seq<BlockView>, us: Seq<Seq<Seq<char>>>) -> bool {
    let (t1, b1, n1) = fenced_pass(t, bs, us[0], 0, 0);
    let (t2, b2, n2) = inline_pass(t1, b1, us[1], 0, 0);
    let (t3, b3, n3) = html_tag_pass(t2, b2, us[2], 0, 0, "code"@, CodeBlockType::HtmlCode, None);
    let (t4, b4, n4) = html_tag_pass(t3, b3, us[3], 0, 0, "pre"@, CodeBlockType::PreFormatted, None);
    let (t5, b5, n5) = html_tag_pass(t4, b4, us[4], 0, 0, "script"@, CodeBlockType::ScriptTag, Some("javascript"@));
    let (t6, b6, n6) = html_tag_pass(t5, b5, us[5], 0, 0, "style"@, CodeBlockType::StyleTag, Some("css"@));
    let c7 = api_candidates(lines(t6));
    let (t7, b7, n7) = apply_pass(t6, b6, us[6], c7, "api"@, CodeBlockType::ApiEndpoint);
    let c8 = word_candidates(lines(t7), CodeBlockType::FilePath);
    let (t8, b8, n8) = apply_pass(t7, b7, us[7], c8, "path"@, CodeBlockType::FilePath);
    let c9 = word_candidates(lines(t8), CodeBlockType::EnvVariable);
    let (t9, b9, n9) = apply_pass(t8, b8, us[8], c9, "env"@, CodeBlockType::EnvVariable);
    let c10 = word_candidates(lines(t9), CodeBlockType::VersionNumber);
    let (t10, b10, n10) = apply_pass(t9, b9, us[9], c10, "version"@, CodeBlockType::VersionNumber);
    let c11 = word_candidates(lines(t10), CodeBlockType::FunctionName);
    let (t11, b11, n11) = apply_pass(t10, b10, us[10], c11, "function"@, CodeBlockType::FunctionName);
    let c12 = command_candidates(lines(t11));
    let (t12, b12, n12) = apply_pass(t11, b11, us[11], c12, "shell"@, CodeBlockType::CommandLine);
    let (t13, b13, n13) = json_pass(t12, b12, us[12]);
    &&& n1 <= us[0].len() && n2 <= us[1].len() && n3 <= us[2].len() && n4 <= us[3].len()
    &&& n5 <= us[4].len() && n6 <= us[5].len() && n7 <= us[6].len() && n8 <= us[7].len()
    &&& n9 <= us[8].len() && n10 <= us[9].len() && n11 <= us[10].len() && n12 <= us[11].len()
    &&& n13 <= us[12].len()
    &&& html_tags_pass(t13, b13, us[13], 0, 0) matches Some(r) ==> r.2 <= us[13].len()
}

proof fn lemma_supplies_placeholders(us: Seq<Seq<Seq<char>>>, k: int)
    requires
        0 <= k,
        forall|m: int| 0 <= m < us.len() ==> all_placeholders(#[trigger] us[m]),
    ensures
        all_placeholders(supplies_from(us, k)),
    decreases us.len() - k,
{
    if k < us.len() {
        lemma_supplies_placeholders(us, k + 1);
        let a = us[k];
        let b = supplies_from(us, k + 1);
        assert forall|i: int| 0 <= i < (a + b).len() implies is_placeholder(#[trigger] (a + b)[i]) by {
            if i < a.len() {
                assert((a + b)[i] == a[i]);
            } else {
                assert((a + b)[i] == b[i - a.len()]);
            }
        }
    }
}

/// A restorable state before pass `k` stays restorable after a pass that
/// draws from the beginning of supply `k`.
proof fn lemma_next_supply(t0: Seq<char>, t: Seq<char>, bs: Seq<BlockView>, us: Seq<Seq<Seq<char>>>, k: int, n: int)
    requires
        0 <= k < us.len(),
        0 <= n <= us[k].len(),
        restorable(t0, t, bs, us[k].skip(n) + supplies_from(us, k + 1)),
    ensures
        restorable(t0, t, bs, supplies_from(us, k + 1)),
{
    lemma_restorable_suffix(t0, t, bs, us[k].skip(n), supplies_from(us, k + 1));
}

/// Putting the protected pieces back gives the text that was protected:
/// protecting `t` with nothing stored yet, then restoring the result with
/// the pieces stored, gives `t`, whenever the placeholders drawn are fresh
/// (different from each other, their identifiers absent from `t`) and
/// each pass's supply holds the placeholders it draws.
#[verifier::rlimit(40)]
pub proof fn law_protect_then_restore(t: Seq<char>, us: Seq<Seq<Seq<char>>>)
    requires
        fresh_supplies(t, us),
        supplies_suffice(t, seq![], us),
    ensures
        protect_spec(t, seq![], us) matches Some(r) ==> restore_spec(r.1, r.0) == t,
{
    let bs0 = Seq::<BlockView>::empty();
    lemma_supplies_placeholders(us, 0);
    assert(restorable(t, t, bs0, supplies_from(us, 0)));
    let (t1, b1, n1) = fenced_pass(t, bs0, us[0], 0, 0);
    assert(us[0].skip(0) =~= us[0]);
    assert(supplies_from(us, 0) == us[0] + supplies_from(us, 1));
    lemma_fenced_count(t, bs0, us[0], 0, 0);
    lemma_fenced_restorable(t, t, bs0, us[0], 0, 0, supplies_from(us, 1));
    lemma_next_supply(t, t1, b1, us, 0, n1);

    let (t2, b2, n2) = inline_pass(t1, b1, us[1], 0, 0);
    assert(us[1].skip(0) =~= us[1]);
    assert(supplies_from(us, 1) == us[1] + supplies_from(us, 2));
    lemma_inline_count(t1, b1, us[1], 0, 0);
    lemma_inline_restorable(t, t1, b1, us[1], 0, 0, supplies_from(us, 2));
    lemma_next_supply(t, t2, b2, us, 1, n2);

    let (t3, b3, n3) = html_tag_pass(t2, b2, us[2], 0, 0, "code"@, CodeBlockType::HtmlCode, None);
    assert(us[2].skip(0) =~= us[2]);
    assert(supplies_from(us, 2) == us[2] + supplies_from(us, 3));
    lemma_html_tag_count(t2, b2, us[2], 0, 0, "code"@, CodeBlockType::HtmlCode, None);
    lemma_html_tag_restorable(t, t2, b2, us[2], 0, 0, "code"@, CodeBlockType::HtmlCode, None, supplies_from(us, 3));
    lemma_next_supply(t, t3, b3, us, 2, n3);

    let (t4, b4, n4) = html_tag_pass(t3, b3, us[3], 0, 0, "pre"@, CodeBlockType::PreFormatted, None);
    assert(us[3].skip(0) =~= us[3]);
    assert(supplies_from(us, 3) == us[3] + supplies_from(us, 4));
    lemma_html_tag_count(t3, b3, us[3], 0, 0, "pre"@, CodeBlockType::PreFormatted, None);
    lemma_html_tag_restorable(t, t3, b3, us[3], 0, 0, "pre"@, CodeBlockType::PreFormatted, None, supplies_from(us, 4));
    lemma_next_supply(t, t4, b4, us, 3, n4);

    let (t5, b5, n5) = html_tag_pass(t4, b4, us[4], 0, 0, "script"@, CodeBlockType::ScriptTag, Some("javascript"@));
    assert(us[4].skip(0) =~= us[4]);
    assert(supplies_from(us, 4) == us[4] + supplies_from(us, 5));
    lemma_html_tag_count(t4, b4, us[4], 0, 0, "script"@, CodeBlockType::ScriptTag, Some("javascript"@));
    lemma_html_tag_restorable(t, t4, b4, us[4], 0, 0, "script"@, CodeBlockType::ScriptTag, Some("javascript"@), supplies_from(us, 5));
    lemma_next_supply(t, t5, b5, us, 4, n5);

    let (t6, b6, n6) = html_tag_pass(t5, b5, us[5], 0, 0, "style"@, CodeBlockType::StyleTag, Some("css"@));
    assert(us[5].skip(0) =~= us[5]);
    assert(supplies_from(us, 5) == us[5] + supplies_from(us, 6));
    lemma_html_tag_count(t5, b5, us[5], 0, 0, "style"@, CodeBlockType::StyleTag, Some("css"@));
    lemma_html_tag_restorable(t, t5, b5, us[5], 0, 0, "style"@, CodeBlockType::StyleTag, Some("css"@), supplies_from(us, 6));
    lemma_next_supply(t, t6, b6, us, 5, n6);

    let c7 = api_candidates(lines(t6));
    let (t7, b7, n7) = apply_pass(t6, b6, us[6], c7, "api"@, CodeBlockType::ApiEndpoint);
    assert(supplies_from(us, 6) == us[6] + supplies_from(us, 7));
    lemma_apply_restorable(t, t6, b6, us[6], c7, "api"@, CodeBlockType::ApiEndpoint, supplies_from(us, 7));
    lemma_next_supply(t, t7, b7, us, 6, n7);

    let c8 = word_candidates(lines(t7), CodeBlockType::FilePath);
    let (t8, b8, n8) = apply_pass(t7, b7, us[7], c8, "path"@, CodeBlockType::FilePath);
    assert(supplies_from(us, 7) == us[7] + supplies_from(us, 8));
    lemma_apply_restorable(t, t7, b7, us[7], c8, "path"@, CodeBlockType::FilePath, supplies_from(us, 8));
    lemma_next_supply(t, t8, b8, us, 7, n8);

    let c9 = word_candidates(lines(t8), CodeBlockType::EnvVariable);
    let (t9, b9, n9) = apply_pass(t8, b8, us[8], c9, "env"@, CodeBlockType::EnvVariable);
    assert(supplies_from(us, 8) == us[8] + supplies_from(us, 9));
    lemma_apply_restorable(t, t8, b8, us[8], c9, "env"@, CodeBlockType::EnvVariable, supplies_from(us, 9));
    lemma_next_supply(t, t9, b9, us, 8, n9);

    let c10 = word_candidates(lines(t9), CodeBlockType::VersionNumber);
    let (t10, b10, n10) = apply_pass(t9, b9, us[9], c10, "version"@, CodeBlockType::VersionNumber);
    assert(supplies_from(us, 9) == us[9] + supplies_from(us, 10));
    lemma_apply_restorable(t, t9, b9, us[9], c10, "version"@, CodeBlockType::VersionNumber, supplies_from(us, 10));
    lemma_next_supply(t, t10, b10, us, 9, n10);

    let c11 = word_candidates(lines(t10), CodeBlockType::FunctionName);
    let (t11, b11, n11) = apply_pass(t10, b10, us[10], c11, "function"@, CodeBlockType::FunctionName);
    assert(supplies_from(us, 10) == us[10] + supplies_from(us, 11));
    lemma_apply_restorable(t, t10, b10, us[10], c11, "function"@, CodeBlockType::FunctionName, supplies_from(us, 11));
    lemma_next_supply(t, t11, b11, us, 10, n11);

    let c12 = command_candidates(lines(t11));
    let (t12, b12, n12) = apply_pass(t11, b11, us[11], c12, "shell"@, CodeBlockType::CommandLine);
    assert(supplies_from(us, 11) == us[11] + supplies_from(us, 12));
    lemma_apply_restorable(t, t11, b11, us[11], c12, "shell"@, CodeBlockType::CommandLine, supplies_from(us, 12));
    lemma_next_supply(t, t12, b12, us, 11, n12);

    let (t13, b13, n13) = json_pass(t12, b12, us[12]);
    assert(supplies_from(us, 12) == us[12] + supplies_from(us, 13));
    lemma_json_restorable(t, t12, b12, us[12], supplies_from(us, 13));
    lemma_next_supply(t, t13, b13, us, 12, n13);

    assert(supplies_from(us, 13) == us[13] + supplies_from(us, 14));
    assert(supplies_from(us, 14) == Seq::<Seq<char>>::empty());
    assert(us[13].skip(0) =~= us[13]);
    lemma_html_tags_count(t13, b13, us[13], 0, 0);
    lemma_html_tags_restorable(t, t13, b13, us[13], 0, 0, supplies_from(us, 14));
}

/// `filter_seqs` keeps every item that satisfies the predicate.
proof fn lemma_filter_seqs_keeps(ps: Seq<Seq<char>>, p: spec_fn(Seq<char>) -> bool, w: Seq<char>)
    requires
        ps.contains(w),
        p(w),
    ensures
        filter_seqs(ps, p).contains(w),
    decreases ps.len(),
{
    let r = filter_seqs(ps.drop_last(), p);
    if ps.last() == w {
        assert(r.push(w)[r.len() as int] == w);
    } else {
        let i = choose|i: int| 0 <= i < ps.len() && ps[i] == w;
        assert(i < ps.len() - 1);
        assert(ps.drop_last()[i] == w);
        lemma_filter_seqs_keeps(ps.drop_last(), p, w);
        let j = choose|j: int| 0 <= j < r.len() && r[j] == w;
        if p(ps.last()) {
            assert(r.push(ps.last())[j] == w);
        }
    }
}

/// A word of line `i` of `ls` that follows the rule of `kind` is among
/// the candidates of `kind`.
proof fn lemma_rule_words_are_candidates(ls: Seq<Seq<char>>, i: int, w: Seq<char>, kind: CodeBlockType)
    requires
        0 <= i < ls.len(),
        split_ws(ls[i]).contains(w),
        word_rule(kind, w),
    ensures
        word_candidates(ls, kind).contains(w),
    decreases ls.len(),
{
    let p = |x: Seq<char>| word_rule(kind, x);
    let c = word_candidates(ls.drop_last(), kind);
    let f = filter_seqs(split_ws(ls.last()), p);
    if i == ls.len() - 1 {
        lemma_filter_seqs_keeps(split_ws(ls.last()), p, w);
        let j = choose|j: int| 0 <= j < f.len() && f[j] == w;
        assert((c + f)[c.len() + j] == w);
    } else {
        assert(ls.drop_last()[i] == ls[i]);
        lemma_rule_words_are_candidates(ls.drop_last(), i, w, kind);
        let j = choose|j: int| 0 <= j < c.len() && c[j] == w;
        assert((c + f)[j] == w);
    }
}

/// Every word of line `i` of `ls` that starts with `/`, `./` or `~/`,
/// holds a `.` and has more than 3 bytes is among the file-path candidates
/// of `ls`: the words the path pass replaces by placeholders and stores as
/// `FilePath` pieces.
pub proof fn law_path_words_are_candidates(ls: Seq<Seq<char>>, i: int, w: Seq<char>)
    requires
        0 <= i < ls.len(),
        split_ws(ls[i]).contains(w),
        (w.len() >= 1 && w[0] == '/') || (w.len() >= 2 && w[0] == '.' && w[1] == '/') || (w.len() >= 2 && w[0]
            == '~' && w[1] == '/'),
        w.contains('.'),
        utf8_len(w) > 3,
    ensures
        word_candidates(ls, CodeBlockType::FilePath).contains(w),
{
    let k = choose|k: int| 0 <= k < w.len() && w[k] == '.';
    assert(w.subrange(k, k + 1) =~= seq!['.']);
    assert(is_match_at(w, seq!['.'], k));
    if w.len() >= 1 && w[0] == '/' {
        assert(w.subrange(0, 1) =~= seq!['/']);
    } else if w[0] == '.' {
        assert(w.subrange(0, 2) =~= seq!['.', '/']);
    } else {
        assert(w.subrange(0, 2) =~= seq!['~', '/']);
    }
    assert(is_file_path(w));
    lemma_rule_words_are_candidates(ls, i, w, CodeBlockType::FilePath);
}

/// Every word of line `i` of `ls` that starts with `$` or `%` and has more
/// than 2 bytes is among the environment-variable candidates of `ls`.
pub proof fn law_env_words_are_candidates(ls: Seq<Seq<char>>, i: int, w: Seq<char>)
    requires
        0 <= i < ls.len(),
        split_ws(ls[i]).contains(w),
        w.len() >= 1 && (w[0] == '$' || w[0] == '%'),
        utf8_len(w) > 2,
    ensures
        word_candidates(ls, CodeBlockType::EnvVariable).contains(w),
{
    if w[0] == '$' {
        assert(w.subrange(0, 1) =~= seq!['$']);
    } else {
        assert(w.subrange(0, 1) =~= seq!['%']);
    }
    assert(is_env_variable(w));
    lemma_rule_words_are_candidates(ls, i, w, CodeBlockType::EnvVariable);
}

/// Every word of line `i` of `ls` that ends with `()`, has more than 2
/// bytes, and before the `()` holds only letters, digits, `_` and `.`, is
/// among the function-call candidates of `ls`.
pub proof fn law_function_words_are_candidates(ls: Seq<Seq<char>>, i: int, w: Seq<char>)
    requires
        0 <= i < ls.len(),
        split_ws(ls[i]).contains(w),
        w.len() >= 2 && w[w.len() - 2] == '(' && w[w.len() - 1] == ')',
        utf8_len(w) > 2,
        forall|j: int| 0 <= j < w.len() - 2 ==> (unicode_alphanumeric(#[trigger] w[j]) || w[j] == '_' || w[j] == '.'),
    ensures
        word_candidates(ls, CodeBlockType::FunctionName).contains(w),
{
    assert(w.subrange(w.len() - 2, w.len() as int) =~= seq!['(', ')']);
    assert(is_function_name(w));
    lemma_rule_words_are_candidates(ls, i, w, CodeBlockType::FunctionName);
}

} // verus!
