//! Reader of the configuration file.
//!
//! It accepts exactly this shape, where every section and every key can be
//! left out:
//!
//! ```toml
//! [defaults]
//! fps_cap = 300
//!
//! [app."Marvel-Win64-Shipping.exe"]
//! expose_reflex = true
//! spoof_nvidia = true
//! spoof_model = "RTX_4090"
//! force_decoupled = true
//! fps_cap = 144
//! ```
//!
//! The section `[defaults]` has the same keys as those of the applications.
//! A `#` starts a comment. Anything else is ignored with a warning, and
//! leaves the section open.

use vstd::prelude::*;
use vstd::slice::slice_subrange;
use crate::text;
use crate::text::{chars_of, find_char, parse_number, spells, string_of, trim, trim_end, CharClass};

verus! {

/// The settings that a file overrides: for one application, or, under an empty
/// name, for all of them.
#[derive(Debug)]
pub struct AppOverride {
    pub app_name: String,
    pub expose_reflex: Option<bool>,
    pub spoof_nvidia: Option<bool>,
    pub force_decoupled: Option<bool>,
    pub fps_cap: Option<u32>,
    pub spoof_model: Option<String>,
}

/// An override with its texts as sequences of characters.
pub struct OverrideView {
    pub app_name: Seq<char>,
    pub expose_reflex: Option<bool>,
    pub spoof_nvidia: Option<bool>,
    pub force_decoupled: Option<bool>,
    pub fps_cap: Option<u32>,
    pub spoof_model: Option<Seq<char>>,
}

impl View for AppOverride {
    type V = OverrideView;

    open spec fn view(&self) -> OverrideView {
        OverrideView {
            app_name: self.app_name@,
            expose_reflex: self.expose_reflex,
            spoof_nvidia: self.spoof_nvidia,
            force_decoupled: self.force_decoupled,
            fps_cap: self.fps_cap,
            spoof_model: match self.spoof_model {
                Some(s) => Some(s@),
                None => None,
            },
        }
    }
}

impl Clone for AppOverride {
    fn clone(&self) -> (r: Self)
        ensures
            r == *self,
    {
        AppOverride {
            app_name: self.app_name.clone(),
            expose_reflex: self.expose_reflex,
            spoof_nvidia: self.spoof_nvidia,
            force_decoupled: self.force_decoupled,
            fps_cap: self.fps_cap,
            spoof_model: match &self.spoof_model {
                Some(s) => Some(s.clone()),
                None => None,
            },
        }
    }
}

/// Something in the file that has no effect.
#[derive(Debug)]
pub enum TomlWarning {
    /// A line outside of every section; lines count from zero.
    OutsideSection { index: usize, line: String },
    /// A line of a section that assigns nothing.
    NotAnAssignment { index: usize, line: String },
    /// An assignment to a key that does not exist.
    UnknownKey { key: String },
    /// A value that does not read as one of its key.
    UnreadableValue { key: String, value: String },
}

pub enum WarningView {
    OutsideSection { index: nat, line: Seq<char> },
    NotAnAssignment { index: nat, line: Seq<char> },
    UnknownKey { key: Seq<char> },
    UnreadableValue { key: Seq<char>, value: Seq<char> },
}

impl View for TomlWarning {
    type V = WarningView;

    open spec fn view(&self) -> WarningView {
        match self {
            TomlWarning::OutsideSection { index, line } => WarningView::OutsideSection {
                index: *index as nat,
                line: line@,
            },
            TomlWarning::NotAnAssignment { index, line } => WarningView::NotAnAssignment {
                index: *index as nat,
                line: line@,
            },
            TomlWarning::UnknownKey { key } => WarningView::UnknownKey { key: key@ },
            TomlWarning::UnreadableValue { key, value } => WarningView::UnreadableValue {
                key: key@,
                value: value@,
            },
        }
    }
}

/// What a configuration file says.
#[derive(Debug)]
pub struct TomlFile {
    /// The section `[defaults]`.
    pub defaults: AppOverride,
    pub overrides: Vec<AppOverride>,
    pub warnings: Vec<TomlWarning>,
}

/// The section that is open.
pub enum SectionView {
    Outside,
    Defaults,
    App(OverrideView),
}

/// The defaults, the sections of applications that are complete, the section
/// that is open, and the warnings, each in the order of the file.
pub struct TomlView {
    pub defaults: OverrideView,
    pub overrides: Seq<OverrideView>,
    pub section: SectionView,
    pub warnings: Seq<WarningView>,
}

impl TomlView {
    pub open spec fn empty() -> TomlView {
        TomlView {
            defaults: fresh_override(Seq::empty()),
            overrides: Seq::empty(),
            section: SectionView::Outside,
            warnings: Seq::empty(),
        }
    }

    pub open spec fn warn(self, w: WarningView) -> TomlView {
        TomlView { warnings: self.warnings.push(w), ..self }
    }

    /// The open section counts too at the end of the file, or where the next
    /// one starts.
    pub open spec fn closed(self) -> TomlView {
        match self.section {
            SectionView::App(cur) => TomlView {
                overrides: self.overrides.push(cur),
                section: SectionView::Outside,
                ..self
            },
            _ => TomlView { section: SectionView::Outside, ..self },
        }
    }
}

pub open spec fn overrides_view(s: Seq<AppOverride>) -> Seq<OverrideView> {
    s.map_values(|o: AppOverride| o@)
}

pub open spec fn warnings_view(s: Seq<TomlWarning>) -> Seq<WarningView> {
    s.map_values(|w: TomlWarning| w@)
}

/// An override that changes nothing yet.
pub open spec fn fresh_override(name: Seq<char>) -> OverrideView {
    OverrideView {
        app_name: name,
        expose_reflex: None,
        spoof_nvidia: None,
        force_decoupled: None,
        fps_cap: None,
        spoof_model: None,
    }
}

/// `true` or `1`, `false` or `0`; anything else is no value.
pub open spec fn bool_value(s: Seq<char>) -> Option<bool> {
    if s == "true"@ || s == "1"@ {
        Some(true)
    } else if s == "false"@ || s == "0"@ {
        Some(false)
    } else {
        None
    }
}

pub open spec fn u32_value(s: Seq<char>) -> Option<u32> {
    match text::number_value(s, 10, u32::MAX as nat) {
        Some(v) => Some(v as u32),
        None => None,
    }
}

/// The section with one key assigned: `None` where there is no such key. A
/// value that does not read leaves the key unset, and there is a warning.
pub open spec fn with_key(cur: OverrideView, k: Seq<char>, v: Seq<char>) -> Option<OverrideView> {
    if k == "expose_reflex"@ {
        Some(OverrideView { expose_reflex: bool_value(v), ..cur })
    } else if k == "spoof_nvidia"@ {
        Some(OverrideView { spoof_nvidia: bool_value(v), ..cur })
    } else if k == "force_decoupled"@ {
        Some(OverrideView { force_decoupled: bool_value(v), ..cur })
    } else if k == "fps_cap"@ {
        Some(OverrideView { fps_cap: u32_value(v), ..cur })
    } else if k == "spoof_model"@ {
        Some(OverrideView { spoof_model: Some(v), ..cur })
    } else {
        None
    }
}

/// Whether a value reads as one of its key.
pub open spec fn reads(k: Seq<char>, v: Seq<char>) -> bool {
    if k == "expose_reflex"@ || k == "spoof_nvidia"@ || k == "force_decoupled"@ {
        bool_value(v) is Some
    } else if k == "fps_cap"@ {
        u32_value(v) is Some
    } else {
        true
    }
}

/// A line without its comment and the white space around it.
pub open spec fn content_of(raw: Seq<char>) -> Seq<char> {
    text::trimmed(raw.take(text::index_of(raw, '#') as int))
}

/// Whether a line opens the section of an application.
pub open spec fn opens_app(line: Seq<char>) -> bool {
    "[app."@.is_prefix_of(line)
}

/// The application that a section is for.
pub open spec fn section_name(line: Seq<char>) -> Seq<char> {
    text::unquoted(
        text::trim_end_of(line.skip("[app."@.len() as int), text::CharClass::One(']')),
    )
}

/// The section after a line that is no header, and the warning, if there is
/// one.
pub open spec fn assigned(cur: OverrideView, index: nat, line: Seq<char>) -> (
    OverrideView,
    Option<WarningView>,
) {
    let i = text::index_of(line, '=') as int;
    let k = text::trimmed(line.take(i));
    let v = text::unquoted(text::trimmed(line.skip(i + 1)));
    if i >= line.len() {
        (cur, Some(WarningView::NotAnAssignment { index, line }))
    } else {
        match with_key(cur, k, v) {
            None => (cur, Some(WarningView::UnknownKey { key: k })),
            Some(next) => if reads(k, v) {
                (next, None)
            } else {
                (next, Some(WarningView::UnreadableValue { key: k, value: v }))
            },
        }
    }
}

/// What one line does.
pub open spec fn after_line(st: TomlView, index: nat, raw: Seq<char>) -> TomlView {
    let line = content_of(raw);
    if line.len() == 0 {
        st
    } else if opens_app(line) {
        TomlView { section: SectionView::App(fresh_override(section_name(line))), ..st.closed() }
    } else if line == "[defaults]"@ {
        TomlView { section: SectionView::Defaults, ..st.closed() }
    } else {
        let (next, warning) = match st.section {
            SectionView::Outside => (
                st,
                Some(WarningView::OutsideSection { index, line }),
            ),
            SectionView::Defaults => {
                let (defaults, w) = assigned(st.defaults, index, line);
                (TomlView { defaults, ..st }, w)
            },
            SectionView::App(cur) => {
                let (next, w) = assigned(cur, index, line);
                (TomlView { section: SectionView::App(next), ..st }, w)
            },
        };
        match warning {
            Some(w) => next.warn(w),
            None => next,
        }
    }
}

/// What the lines of `s` do, of which the first has the number `index`.
pub open spec fn after_lines(st: TomlView, index: nat, s: Seq<char>) -> TomlView
    decreases s.len(),
{
    let i = text::index_of(s, '\n') as int;
    if i >= s.len() {
        after_line(st, index, s)
    } else {
        after_lines(after_line(st, index, s.take(i)), index + 1, s.skip(i + 1))
    }
}

/// What a whole file says.
pub open spec fn file_value(s: Seq<char>) -> TomlView {
    after_lines(TomlView::empty(), 0, s).closed()
}

pub open spec fn is_key(k: Seq<char>) -> bool {
    k == "expose_reflex"@ || k == "spoof_nvidia"@ || k == "force_decoupled"@ || k == "fps_cap"@
        || k == "spoof_model"@
}

/// Whether a line is none of those that a file is made of: it has content, is
/// no header, and assigns no key that exists.
pub open spec fn is_foreign(line: Seq<char>) -> bool {
    let i = text::index_of(line, '=') as int;
    &&& line.len() > 0
    &&& !opens_app(line)
    &&& line != "[defaults]"@
    &&& (i >= line.len() || !is_key(text::trimmed(line.take(i))))
}

/// A foreign line gives one warning and changes nothing else: what was read
/// stays, and so does the section that is open.
pub proof fn law_foreign_line_changes_nothing(st: TomlView, index: nat, raw: Seq<char>)
    requires
        is_foreign(content_of(raw)),
    ensures
        after_line(st, index, raw).defaults == st.defaults,
        after_line(st, index, raw).overrides == st.overrides,
        after_line(st, index, raw).section == st.section,
        after_line(st, index, raw).warnings.len() == st.warnings.len() + 1,
        after_line(st, index, raw).warnings.drop_last() == st.warnings,
{
    assert(after_line(st, index, raw).warnings.drop_last() =~= st.warnings);
}

/// A line that starts with a bracket is foreign unless it opens a section.
pub proof fn law_other_brackets_are_foreign(line: Seq<char>)
    requires
        line.len() > 0,
        line[0] == '[',
        !opens_app(line),
        line != "[defaults]"@,
    ensures
        is_foreign(line),
{
    let i = text::index_of(line, '=') as int;
    text::lemma_index_of(line, '=');
    if i < line.len() {
        let k = line.take(i);
        assert(line[i] == '=');
        assert(k[0] == '[');
        assert(text::trim_start_of(k, text::CharClass::Space) == k);
        text::lemma_trim_end_keeps_first(k, text::CharClass::Space);
        reveal_strlit("expose_reflex");
        reveal_strlit("spoof_nvidia");
        reveal_strlit("force_decoupled");
        reveal_strlit("fps_cap");
        reveal_strlit("spoof_model");
        assert(text::trimmed(k)[0] == '[');
    }
}

/// The names in the headers of applications, in the order of the lines.
pub open spec fn app_headers(s: Seq<char>) -> Seq<Seq<char>>
    decreases s.len(),
{
    let i = text::index_of(s, '\n') as int;
    if i >= s.len() {
        header_in(content_of(s))
    } else {
        header_in(content_of(s.take(i))) + app_headers(s.skip(i + 1))
    }
}

/// The name in a line that opens the section of an application.
pub open spec fn header_in(line: Seq<char>) -> Seq<Seq<char>> {
    if opens_app(line) {
        seq![section_name(line)]
    } else {
        Seq::empty()
    }
}

pub open spec fn names_of(overrides: Seq<OverrideView>) -> Seq<Seq<char>> {
    overrides.map_values(|o: OverrideView| o.app_name)
}

/// There is one override for each header of an application, under the name in
/// it, and they come in the order of the file.
pub proof fn law_one_override_per_header(s: Seq<char>)
    ensures
        names_of(file_value(s).overrides) == app_headers(s),
{
    lemma_names_after_lines(TomlView::empty(), 0, s);
    assert(names_of(TomlView::empty().closed().overrides) + app_headers(s) =~= app_headers(s));
}

proof fn lemma_names_after_line(st: TomlView, index: nat, raw: Seq<char>)
    ensures
        names_of(after_line(st, index, raw).closed().overrides) == names_of(
            st.closed().overrides,
        ) + header_in(content_of(raw)),
{
    reveal_strlit("[app.");
    reveal_strlit("[defaults]");
    let line = content_of(raw);
    let before = names_of(st.closed().overrides);
    let after = names_of(after_line(st, index, raw).closed().overrides);
    if opens_app(line) {
        assert(after =~= before.push(section_name(line)));
    } else {
        assert(after =~= before);
    }
    assert(after =~= before + header_in(line));
}

proof fn lemma_names_after_lines(st: TomlView, index: nat, s: Seq<char>)
    ensures
        names_of(after_lines(st, index, s).closed().overrides) == names_of(
            st.closed().overrides,
        ) + app_headers(s),
    decreases s.len(),
{
    let i = text::index_of(s, '\n') as int;
    if i >= s.len() {
        lemma_names_after_line(st, index, s);
    } else {
        let here = header_in(content_of(s.take(i)));
        let rest = app_headers(s.skip(i + 1));
        lemma_names_after_line(st, index, s.take(i));
        lemma_names_after_lines(after_line(st, index, s.take(i)), index + 1, s.skip(i + 1));
        let before = names_of(st.closed().overrides);
        assert((before + here) + rest =~= before + (here + rest));
    }
}

pub fn parse_bool(s: &str) -> (r: Option<bool>)
    ensures
        r == bool_value(s@),
{
    let chars = chars_of(s);
    parse_bool_chars(chars.as_slice())
}

fn parse_bool_chars(s: &[char]) -> (r: Option<bool>)
    ensures
        r == bool_value(s@),
{
    if spells(s, "true") || spells(s, "1") {
        Some(true)
    } else if spells(s, "false") || spells(s, "0") {
        Some(false)
    } else {
        None
    }
}

fn parse_u32_chars(s: &[char]) -> (r: Option<u32>)
    ensures
        r == u32_value(s@),
{
    match parse_number(s, 10, u32::MAX as u64) {
        Some(v) => Some(v as u32),
        None => None,
    }
}

fn new_override(name: &[char]) -> (r: AppOverride)
    ensures
        r@ == fresh_override(name@),
{
    AppOverride {
        app_name: string_of(name),
        expose_reflex: None,
        spoof_nvidia: None,
        force_decoupled: None,
        fps_cap: None,
        spoof_model: None,
    }
}

/// How an assignment went.
enum Assigned {
    Taken,
    UnknownKey,
    UnreadableValue,
}

fn outcome(readable: bool) -> (r: Assigned)
    ensures
        r == (if readable {
            Assigned::Taken
        } else {
            Assigned::UnreadableValue
        }),
{
    if readable {
        Assigned::Taken
    } else {
        Assigned::UnreadableValue
    }
}

/// Assigns one key.
fn assign(cur: &mut AppOverride, k: &[char], v: &[char]) -> (r: Assigned)
    ensures
        (r is UnknownKey) == (with_key(old(cur)@, k@, v@) is None),
        r !is UnknownKey ==> Some(final(cur)@) == with_key(old(cur)@, k@, v@) && (r is Taken)
            == reads(k@, v@),
        r is UnknownKey ==> *final(cur) == *old(cur),
{
    if spells(k, "expose_reflex") {
        cur.expose_reflex = parse_bool_chars(v);
        outcome(cur.expose_reflex.is_some())
    } else if spells(k, "spoof_nvidia") {
        cur.spoof_nvidia = parse_bool_chars(v);
        outcome(cur.spoof_nvidia.is_some())
    } else if spells(k, "force_decoupled") {
        cur.force_decoupled = parse_bool_chars(v);
        outcome(cur.force_decoupled.is_some())
    } else if spells(k, "fps_cap") {
        cur.fps_cap = parse_u32_chars(v);
        outcome(cur.fps_cap.is_some())
    } else if spells(k, "spoof_model") {
        cur.spoof_model = Some(string_of(v));
        Assigned::Taken
    } else {
        Assigned::UnknownKey
    }
}

/// Takes a line that is no header into a section; gives the warning, if there
/// is one.
fn take_line(cur: &mut AppOverride, index: usize, line: &[char]) -> (r: Option<TomlWarning>)
    ensures
        final(cur)@ == assigned(old(cur)@, index as nat, line@).0,
        opt_warning(r) == assigned(old(cur)@, index as nat, line@).1,
{
    let i = find_char(line, '=');
    if i >= line.len() {
        return Some(TomlWarning::NotAnAssignment { index, line: string_of(line) });
    }
    let left = slice_subrange(line, 0, i);
    let right = slice_subrange(line, i + 1, line.len());
    proof {
        assert(left@ =~= line@.take(i as int));
        assert(right@ =~= line@.skip(i + 1));
    }
    let k = trim(left, CharClass::Space);
    let v = trim(trim(right, CharClass::Space), CharClass::One('"'));
    match assign(cur, k, v) {
        Assigned::Taken => None,
        Assigned::UnknownKey => Some(TomlWarning::UnknownKey { key: string_of(k) }),
        Assigned::UnreadableValue => Some(
            TomlWarning::UnreadableValue { key: string_of(k), value: string_of(v) },
        ),
    }
}

spec fn opt_warning(w: Option<TomlWarning>) -> Option<WarningView> {
    match w {
        Some(w) => Some(w@),
        None => None,
    }
}

enum Section {
    Outside,
    Defaults,
    App(AppOverride),
}

/// The state of the reader between two lines.
struct Reader {
    defaults: AppOverride,
    overrides: Vec<AppOverride>,
    section: Section,
    warnings: Vec<TomlWarning>,
}

impl Reader {
    spec fn state(self) -> TomlView {
        TomlView {
            defaults: self.defaults@,
            overrides: overrides_view(self.overrides@),
            section: match self.section {
                Section::Outside => SectionView::Outside,
                Section::Defaults => SectionView::Defaults,
                Section::App(cur) => SectionView::App(cur@),
            },
            warnings: warnings_view(self.warnings@),
        }
    }

    fn warn(&mut self, w: TomlWarning)
        ensures
            final(self).state() == old(self).state().warn(w@),
    {
        let ghost before = self.warnings@;
        self.warnings.push(w);
        proof {
            assert(warnings_view(before.push(w)) =~= warnings_view(before).push(w@));
        }
    }

    fn close(&mut self)
        ensures
            final(self).state() == old(self).state().closed(),
    {
        let ghost before = self.overrides@;
        let mut section = Section::Outside;
        core::mem::swap(&mut section, &mut self.section);
        if let Section::App(cur) = section {
            self.overrides.push(cur);
            proof {
                assert(overrides_view(before.push(cur)) =~= overrides_view(before).push(cur@));
            }
        }
    }

    fn line(&mut self, index: usize, raw: &[char])
        ensures
            final(self).state() == after_line(old(self).state(), index as nat, raw@),
    {
        let cut = find_char(raw, '#');
        let code = slice_subrange(raw, 0, cut);
        proof {
            assert(code@ =~= raw@.take(cut as int));
        }
        let line = trim(code, CharClass::Space);
        if line.len() == 0 {
            return;
        }
        if starts_with(line, "[app.") {
            self.close();
            let n: usize = 5;
            proof {
                reveal_strlit("[app.");
                assert("[app."@.len() == 5);
            }
            let rest = slice_subrange(line, n, line.len());
            proof {
                assert(rest@ =~= line@.skip(5));
            }
            let name = trim(trim_end(rest, CharClass::One(']')), CharClass::One('"'));
            self.section = Section::App(new_override(name));
            return;
        }
        if spells(line, "[defaults]") {
            self.close();
            self.section = Section::Defaults;
            return;
        }
        let mut section = Section::Outside;
        core::mem::swap(&mut section, &mut self.section);
        let warning = match section {
            Section::Outside => Some(TomlWarning::OutsideSection { index, line: string_of(line) }),
            Section::Defaults => {
                let w = take_line(&mut self.defaults, index, line);
                self.section = Section::Defaults;
                w
            },
            Section::App(mut cur) => {
                let w = take_line(&mut cur, index, line);
                self.section = Section::App(cur);
                w
            },
        };
        if let Some(w) = warning {
            self.warn(w);
        }
    }
}

fn starts_with(s: &[char], prefix: &str) -> (r: bool)
    ensures
        r == prefix@.is_prefix_of(s@),
{
    let p = chars_of(prefix);
    if s.len() < p.len() {
        return false;
    }
    let head = slice_subrange(s, 0, p.len());
    text::same_chars(head, p.as_slice())
}

/// Reads a configuration file.
pub fn load_toml(contents: &str) -> (r: TomlFile)
    ensures
        r.defaults@ == file_value(contents@).defaults,
        overrides_view(r.overrides@) == file_value(contents@).overrides,
        warnings_view(r.warnings@) == file_value(contents@).warnings,
{
    let chars = chars_of(contents);
    let no_name: Vec<char> = Vec::new();
    let mut reader = Reader {
        defaults: new_override(no_name.as_slice()),
        overrides: Vec::new(),
        section: Section::Outside,
        warnings: Vec::new(),
    };
    let mut rest: &[char] = chars.as_slice();
    let mut index: usize = 0;
    let len: usize = chars.len();
    proof {
        assert(no_name@ =~= Seq::<char>::empty());
        assert(overrides_view(reader.overrides@) =~= Seq::<OverrideView>::empty());
        assert(warnings_view(reader.warnings@) =~= Seq::<WarningView>::empty());
        assert(reader.state() == TomlView::empty());
    }
    loop
        invariant_except_break
            after_lines(TomlView::empty(), 0, contents@) == after_lines(
                reader.state(),
                index as nat,
                rest@,
            ),
            index + rest@.len() <= len,
        ensures
            reader.state() == after_lines(TomlView::empty(), 0, contents@),
        decreases rest.len(),
    {
        let i = find_char(rest, '\n');
        let raw = slice_subrange(rest, 0, i);
        proof {
            assert(raw@ =~= rest@.take(i as int));
            if i == rest@.len() {
                assert(raw@ =~= rest@);
            }
        }
        reader.line(index, raw);
        if i >= rest.len() {
            break;
        }
        let ghost before = rest@;
        rest = slice_subrange(rest, i + 1, rest.len());
        proof {
            assert(rest@ =~= before.skip(i + 1));
        }
        index += 1;
    }
    reader.close();
    TomlFile {
        defaults: reader.defaults,
        overrides: reader.overrides,
        warnings: reader.warnings,
    }
}

/// A switch in the file is one of four words, and nothing else is a switch.
pub proof fn law_switch_words(s: &str, r: Option<bool>)
    requires
        call_ensures(parse_bool, (s,), r),
    ensures
        r == Some(true) <==> s@ == "true"@ || s@ == seq!['1'],
        r == Some(false) <==> s@ == "false"@ || s@ == seq!['0'],
{
    reveal_strlit("true");
    reveal_strlit("false");
    reveal_strlit("1");
    reveal_strlit("0");
    assert("1"@ =~= seq!['1']);
    assert("0"@ =~= seq!['0']);
    assert("true"@[0] == 't');
    assert("false"@[0] == 'f');
    assert("1"@[0] == '1');
    assert("0"@[0] == '0');
}

/// Whether two sections agree in all settings but, perhaps, one.
pub open spec fn agree_but(a: OverrideView, b: OverrideView, k: Seq<char>) -> bool {
    &&& a.app_name == b.app_name
    &&& k != "expose_reflex"@ ==> a.expose_reflex == b.expose_reflex
    &&& k != "spoof_nvidia"@ ==> a.spoof_nvidia == b.spoof_nvidia
    &&& k != "force_decoupled"@ ==> a.force_decoupled == b.force_decoupled
    &&& k != "fps_cap"@ ==> a.fps_cap == b.fps_cap
    &&& k != "spoof_model"@ ==> a.spoof_model == b.spoof_model
}

proof fn lemma_keys_differ()
    ensures
        "expose_reflex"@ != "spoof_nvidia"@,
        "expose_reflex"@ != "force_decoupled"@,
        "expose_reflex"@ != "fps_cap"@,
        "expose_reflex"@ != "spoof_model"@,
        "spoof_nvidia"@ != "force_decoupled"@,
        "spoof_nvidia"@ != "fps_cap"@,
        "spoof_nvidia"@ != "spoof_model"@,
        "force_decoupled"@ != "fps_cap"@,
        "force_decoupled"@ != "spoof_model"@,
        "fps_cap"@ != "spoof_model"@,
{
    reveal_strlit("expose_reflex");
    reveal_strlit("spoof_nvidia");
    reveal_strlit("force_decoupled");
    reveal_strlit("fps_cap");
    reveal_strlit("spoof_model");
    assert("expose_reflex"@.len() == 13);
    assert("spoof_nvidia"@.len() == 12);
    assert("force_decoupled"@.len() == 15);
    assert("fps_cap"@.len() == 7);
    assert("spoof_model"@.len() == 11);
}

/// A line of a section assigns the value behind its first `=`, without quotes
/// and white space, to the setting that its key names, and to no other: a
/// switch, the cap, or the model as it is written. The name of the section
/// stays. A value that does not read unsets the setting, with a warning.
pub proof fn law_line_sets_its_key(cur: OverrideView, index: nat, k: Seq<char>, v: Seq<char>)
    requires
        is_key(k),
        text::index_of(k, '=') == k.len(),
        text::trimmed(k) == k,
        text::trimmed(v) == v,
        text::unquoted(v) == v,
    ensures
        ({
            let r = assigned(cur, index, k.push('=') + v);
            &&& agree_but(r.0, cur, k)
            &&& k == "expose_reflex"@ ==> r.0.expose_reflex == bool_value(v)
            &&& k == "spoof_nvidia"@ ==> r.0.spoof_nvidia == bool_value(v)
            &&& k == "force_decoupled"@ ==> r.0.force_decoupled == bool_value(v)
            &&& k == "fps_cap"@ ==> r.0.fps_cap == u32_value(v)
            &&& k == "spoof_model"@ ==> r.0.spoof_model == Some(v)
            &&& k == "spoof_model"@ ==> r.1 is None
            &&& k == "fps_cap"@ ==> (r.1 is None <==> u32_value(v) is Some)
            &&& k != "fps_cap"@ && k != "spoof_model"@ ==> (r.1 is None <==> bool_value(v) is Some)
        }),
{
    lemma_keys_differ();
    let line = k.push('=') + v;
    text::lemma_index_of(k, '=');
    assert forall|j: int| 0 <= j < k.len() implies line[j] != '=' by {
        assert(line[j] == k[j]);
    }
    assert(line[k.len() as int] == '=');
    text::lemma_index_of_is(line, '=', k.len() as int);
    assert(line.take(k.len() as int) =~= k);
    assert(line.skip(k.len() as int + 1) =~= v);
}

/// The last assignment to a key counts, and assignments to different keys do
/// not touch one another.
pub proof fn law_last_assignment_counts(
    cur: OverrideView,
    k: Seq<char>,
    first: Seq<char>,
    last: Seq<char>,
    other: Seq<char>,
)
    requires
        is_key(k),
        is_key(other),
    ensures
        with_key(cur, k, first) is Some,
        with_key(with_key(cur, k, first)->0, k, last) == with_key(cur, k, last),
        k != other ==> with_key(with_key(cur, k, first)->0, other, last) == with_key(
            with_key(cur, other, last)->0,
            k,
            first,
        ),
{
    lemma_keys_differ();
}

/// The cap of a file is the number that is written.
pub proof fn law_written_cap_is_read(n: u32, s: Seq<char>)
    ensures
        u32_value(text::digits_of(n as nat, 10)) == Some(n),
        s.len() == 0 ==> u32_value(s) is None,
        s.len() > 0 && s[0] != '+' && text::digits_value(s, 10) is None ==> u32_value(s) is None,
{
    text::lemma_number_round_trip(n as nat, 10, u32::MAX as nat);
}

/// A comment has no effect: what stands before the first `#` decides what a
/// line does.
pub proof fn law_comments_have_no_effect(
    st: TomlView,
    index: nat,
    code: Seq<char>,
    comment: Seq<char>,
)
    requires
        text::index_of(code, '#') == code.len(),
    ensures
        after_line(st, index, code.push('#') + comment) == after_line(st, index, code),
{
    let raw = code.push('#') + comment;
    text::lemma_index_of(code, '#');
    assert forall|j: int| 0 <= j < code.len() implies raw[j] != '#' by {
        assert(raw[j] == code[j]);
    }
    assert(raw[code.len() as int] == '#');
    text::lemma_index_of_is(raw, '#', code.len() as int);
    assert(raw.take(code.len() as int) =~= code);
    assert(code.take(code.len() as int) =~= code);
}

/// A header opens its section: what was open before is complete, and the lines
/// behind it go into a section of that name that sets nothing yet. An
/// application is named between `[app.` and `]`, with or without quotes.
pub proof fn law_header_opens_its_section(st: TomlView, index: nat, name: Seq<char>, raw: Seq<char>)
    requires
        text::unquoted(name) == name,
        name.len() > 0 ==> name.last() != ']',
        name.len() > 0,
        content_of(raw) == "[app."@ + name.push(']') || content_of(raw) == "[app."@ + seq!['"']
            + name + seq!['"', ']'],
    ensures
        after_line(st, index, raw).section == SectionView::App(fresh_override(name)),
        after_line(st, index, raw).overrides == st.closed().overrides,
        after_line(st, index, raw).defaults == st.defaults,
        after_line(st, index, raw).warnings == st.warnings,
{
    reveal_strlit("[app.");
    let line = content_of(raw);
    let head = "[app."@;
    assert(head.len() == 5);
    let rest = line.skip(5);
    assert(head.is_prefix_of(line)) by {
        assert(line.take(5) =~= head);
    }
    let close = text::CharClass::One(']');
    let quote = text::CharClass::One('"');
    if line == head + name.push(']') {
        assert(rest =~= name.push(']'));
        assert(rest.drop_last() =~= name);
        assert(text::trim_end_of(name, close) == name);
        assert(text::trim_end_of(rest, close) == name);
    } else {
        let quoted = seq!['"'] + name + seq!['"'];
        assert(line == head + seq!['"'] + name + seq!['"', ']']);
        assert(rest =~= quoted.push(']'));
        assert(rest.drop_last() =~= quoted);
        assert(quoted.last() == '"');
        assert(text::trim_end_of(quoted, close) == quoted);
        assert(text::trim_end_of(rest, close) == quoted);
        lemma_unquote(name);
    }
}

proof fn lemma_unquote(name: Seq<char>)
    requires
        name.len() > 0,
        text::unquoted(name) == name,
    ensures
        text::unquoted(seq!['"'] + name + seq!['"']) == name,
{
    let quote = text::CharClass::One('"');
    let quoted = seq!['"'] + name + seq!['"'];
    assert(quoted[0] == '"');
    let inner = name.push('"');
    assert(quoted.drop_first() =~= inner);
    lemma_plain_ends(name);
    assert(inner[0] == name[0]);
    assert(text::trim_start_of(inner, quote) == inner);
    assert(text::trim_start_of(quoted, quote) == inner);
    assert(inner.drop_last() =~= name);
    assert(text::trim_end_of(name, quote) == name);
    assert(text::trim_end_of(inner, quote) == name);
}

/// What stripping quotes does not change has no quote at its ends.
proof fn lemma_plain_ends(name: Seq<char>)
    requires
        name.len() > 0,
        text::unquoted(name) == name,
    ensures
        name[0] != '"',
        name.last() != '"',
{
    let quote = text::CharClass::One('"');
    let t = text::trim_start_of(name, quote);
    lemma_shorter(name, quote);
    lemma_shorter_end(t, quote);
    if name[0] == '"' {
        lemma_shorter(name.drop_first(), quote);
    } else if name.last() == '"' {
        lemma_shorter_end(name.drop_last(), quote);
    }
}

proof fn lemma_shorter(s: Seq<char>, class: text::CharClass)
    ensures
        text::trim_start_of(s, class).len() <= s.len(),
    decreases s.len(),
{
    if s.len() > 0 && class.has(s[0]) {
        lemma_shorter(s.drop_first(), class);
    }
}

proof fn lemma_shorter_end(s: Seq<char>, class: text::CharClass)
    ensures
        text::trim_end_of(s, class).len() <= s.len(),
    decreases s.len(),
{
    if s.len() > 0 && class.has(s.last()) {
        lemma_shorter_end(s.drop_last(), class);
    }
}

/// A whole file: its lines do what they do one after the other, from a state
/// in which nothing is set, and the section that is open at its end counts.
pub proof fn law_file_is_its_lines(
    contents: &str,
    r: TomlFile,
    first: Seq<char>,
    rest: Seq<char>,
)
    requires
        call_ensures(load_toml, (contents,), r),
        contents@ == first.push('\n') + rest,
        text::index_of(first, '\n') == first.len(),
    ensures
        ({
            let end = after_lines(after_line(TomlView::empty(), 0, first), 1, rest).closed();
            &&& r.defaults@ == end.defaults
            &&& overrides_view(r.overrides@) == end.overrides
            &&& warnings_view(r.warnings@) == end.warnings
        }),
{
    let s = contents@;
    text::lemma_index_of(first, '\n');
    assert forall|j: int| 0 <= j < first.len() implies s[j] != '\n' by {
        assert(s[j] == first[j]);
    }
    assert(s[first.len() as int] == '\n');
    text::lemma_index_of_is(s, '\n', first.len() as int);
    assert(s.take(first.len() as int) =~= first);
    assert(s.skip(first.len() as int + 1) =~= rest);
}

/// Lines before the first header set nothing, and neither does an empty file.
pub proof fn law_lines_outside_set_nothing(st: TomlView, index: nat, raw: Seq<char>)
    requires
        st.section is Outside,
        !opens_app(content_of(raw)),
        content_of(raw) != "[defaults]"@,
    ensures
        after_line(st, index, raw).section is Outside,
        after_line(st, index, raw).overrides == st.overrides,
        after_line(st, index, raw).defaults == st.defaults,
        content_of(raw).len() == 0 ==> after_line(st, index, raw) == st,
        content_of(raw).len() > 0 ==> after_line(st, index, raw).warnings.len()
            == st.warnings.len() + 1,
{
}

/// White space around a key and its value, and quotes around the value, make
/// no difference.
pub proof fn law_spaces_and_quotes_make_no_difference(
    cur: OverrideView,
    index: nat,
    k: Seq<char>,
    v: Seq<char>,
)
    requires
        k.len() > 0,
        text::index_of(k, '=') == k.len(),
        !text::is_space(k[0]),
        !text::is_space(k.last()),
        v.len() > 0,
        v[0] != '"',
        v.last() != '"',
        !text::is_space(v[0]),
        !text::is_space(v.last()),
    ensures
        assigned(cur, index, k + seq![' ', '=', ' ', '"'] + v + seq!['"']).0 == assigned(
            cur,
            index,
            k.push('=') + v,
        ).0,
        assigned(cur, index, k + seq![' ', '=', ' ', '"'] + v + seq!['"']).1 == assigned(
            cur,
            index,
            k.push('=') + v,
        ).1,
{
    let space = text::CharClass::Space;
    let quote = text::CharClass::One('"');
    let plain = k.push('=') + v;
    let line = k + seq![' ', '=', ' ', '"'] + v + seq!['"'];
    let n = k.len() as int;
    text::lemma_index_of(k, '=');
    assert forall|j: int| 0 <= j < n implies plain[j] != '=' && line[j] != '=' by {
        assert(plain[j] == k[j]);
        assert(line[j] == k[j]);
    }
    assert(plain[n] == '=');
    assert(line[n] == ' ' && line[n + 1] == '=');
    text::lemma_index_of_is(plain, '=', n);
    text::lemma_index_of_is(line, '=', n + 1);
    assert(plain.take(n) =~= k);
    assert(plain.skip(n + 1) =~= v);
    assert(line.take(n + 1) =~= k + seq![' ']);
    text::lemma_trim_keeps(k, space);
    text::lemma_trim_ending(k, space, seq![' ']);
    let quoted = seq!['"'] + v + seq!['"'];
    let right = line.skip(n + 2);
    assert(right =~= seq![' '] + quoted);
    assert(right[0] == ' ');
    assert(right.drop_first() =~= quoted);
    text::lemma_trim_keeps(quoted, space);
    text::lemma_trim_keeps(v, space);
    text::lemma_trim_keeps(v, quote);
    text::lemma_trim_pair(v, quote, '"', '"');
    assert(text::trim_start_of(right, space) == text::trim_start_of(quoted, space));
}

/// A line that assigns goes into the section that is open, be it that of an
/// application or the defaults, and into no other. What is complete stays.
pub proof fn law_line_goes_into_the_open_section(
    st: TomlView,
    index: nat,
    raw: Seq<char>,
    cur: OverrideView,
)
    requires
        content_of(raw).len() > 0,
        !opens_app(content_of(raw)),
        content_of(raw) != "[defaults]"@,
    ensures
        after_line(st, index, raw).overrides == st.overrides,
        st.section == SectionView::App(cur) ==> after_line(st, index, raw).section
            == SectionView::App(assigned(cur, index, content_of(raw)).0) && after_line(
            st,
            index,
            raw,
        ).defaults == st.defaults,
        st.section is Defaults ==> after_line(st, index, raw).section is Defaults && after_line(
            st,
            index,
            raw,
        ).defaults == assigned(st.defaults, index, content_of(raw)).0,
{
}

/// A section counts once it is over, as it was left: behind those before it,
/// whether another header or the end of the file comes. The defaults stay as
/// they are, and can be taken up again.
pub proof fn law_section_counts_as_it_was_left(
    st: TomlView,
    index: nat,
    cur: OverrideView,
    raw: Seq<char>,
)
    requires
        st.section == SectionView::App(cur),
        content_of(raw) == "[defaults]"@,
    ensures
        after_line(st, index, raw).overrides == st.overrides.push(cur),
        after_line(st, index, raw).section is Defaults,
        after_line(st, index, raw).defaults == st.defaults,
        after_line(st, index, raw).warnings == st.warnings,
        st.closed().overrides == st.overrides.push(cur),
        st.closed().warnings == st.warnings,
        st.closed().defaults == st.defaults,
{
    reveal_strlit("[defaults]");
    reveal_strlit("[app.");
    assert(!opens_app("[defaults]"@)) by {
        assert("[defaults]"@[1] == 'd');
        assert("[app."@[1] == 'a');
        if opens_app("[defaults]"@) {
            assert("[defaults]"@.take(5)[1] == "[app."@[1]);
        }
    }
}

/// A warning says what it is about: a line outside of every section, or one
/// that assigns nothing, by its number and its content; a key that does not
/// exist, by its name; a value that does not read, with its key.
pub proof fn law_warnings_name_their_cause(
    st: TomlView,
    index: nat,
    raw: Seq<char>,
    cur: OverrideView,
)
    requires
        content_of(raw).len() > 0,
        !opens_app(content_of(raw)),
        content_of(raw) != "[defaults]"@,
    ensures
        ({
            let line = content_of(raw);
            let i = text::index_of(line, '=') as int;
            let w = after_line(st, index, raw).warnings;
            &&& st.section is Outside ==> w == st.warnings.push(
                WarningView::OutsideSection { index, line },
            )
            &&& st.section == SectionView::App(cur) && i >= line.len() ==> w == st.warnings.push(
                WarningView::NotAnAssignment { index, line },
            )
            &&& st.section == SectionView::App(cur) && i < line.len() && !is_key(
                text::trimmed(line.take(i)),
            ) ==> w == st.warnings.push(
                WarningView::UnknownKey { key: text::trimmed(line.take(i)) },
            )
            &&& st.section == SectionView::App(cur) && i < line.len() && is_key(
                text::trimmed(line.take(i)),
            ) ==> w == st.warnings || w == st.warnings.push(
                WarningView::UnreadableValue {
                    key: text::trimmed(line.take(i)),
                    value: text::unquoted(text::trimmed(line.skip(i + 1))),
                },
            )
        }),
{
}

} // verus!
