use vstd::prelude::*;

use crate::bytes::{
    bytes_equal, lemma_lines_of_append, lemma_split_on_nonempty, lemma_lines_of_line, lemma_split_on_prefix,
    lemma_split_on_whole, lines_of, split_bytes, split_lines, split_on, vviews,
};
use crate::number::{
    decimal, digit_run, is_blank, is_float_literal, is_float_literal_bytes, lemma_decimal,
    lemma_float_literal_not_blank, lemma_parse_decimal, parse_unsigned, parse_unsigned_bytes,
    push_decimal, unsigned_part,
};

verus! {

/// The settings that the engine keeps in its `settings.ini` file.
///
/// The DPI scale is kept as the text of the number, as the file holds it.
pub struct Settings {
    vsync: bool,
    triple_buffer: bool,
    texture_msaa: u32,
    model_msaa: u32,
    fullscreen: bool,
    borderless: bool,
    minimum_resolution: [u32; 2],
    max_monitor_resolution: [u32; 2],
    resolution: [u32; 2],
    force_dpi: bool,
    dpi: Vec<u8>,
    monitor: usize,
}

/// The values of a [`Settings`].
pub struct SettingsModel {
    pub vsync: bool,
    pub triple_buffer: bool,
    pub texture_msaa: u32,
    pub model_msaa: u32,
    pub fullscreen: bool,
    pub borderless: bool,
    pub minimum_resolution: (u32, u32),
    pub max_monitor_resolution: (u32, u32),
    pub resolution: (u32, u32),
    pub force_dpi: bool,
    pub dpi: Seq<u8>,
    pub monitor: usize,
}

impl Settings {
    /// Every `Settings` has the fixed smallest resolution of 800 by 640, and a DPI text
    /// that reads as a number.
    #[verifier::type_invariant]
    spec fn well_formed(self) -> bool {
        &&& self.minimum_resolution[0] == 800
        &&& self.minimum_resolution[1] == 640
        &&& is_float_literal(self.dpi@)
    }
}

impl Clone for Settings {
    fn clone(&self) -> (r: Self)
        ensures
            r@ == self@,
    {
        proof {
            use_type_invariant(self);
        }
        let dpi = self.dpi.clone();
        assert(dpi@ =~= self.dpi@);
        Settings {
            vsync: self.vsync,
            triple_buffer: self.triple_buffer,
            texture_msaa: self.texture_msaa,
            model_msaa: self.model_msaa,
            fullscreen: self.fullscreen,
            borderless: self.borderless,
            minimum_resolution: self.minimum_resolution,
            max_monitor_resolution: self.max_monitor_resolution,
            resolution: self.resolution,
            force_dpi: self.force_dpi,
            dpi,
            monitor: self.monitor,
        }
    }
}

/// The text `1` is a number.
proof fn lemma_one_is_float_literal()
    ensures
        is_float_literal(seq![49u8]),
{
    let s = seq![49u8];
    assert(unsigned_part(s) == s);
    assert(s.drop_first() =~= Seq::<u8>::empty());
    assert(digit_run(s.drop_first()) == 0);
    assert(digit_run(s) == 1);
    assert(s.skip(1) =~= Seq::<u8>::empty());
}

impl View for Settings {
    type V = SettingsModel;

    closed spec fn view(&self) -> SettingsModel {
        SettingsModel {
            vsync: self.vsync,
            triple_buffer: self.triple_buffer,
            texture_msaa: self.texture_msaa,
            model_msaa: self.model_msaa,
            fullscreen: self.fullscreen,
            borderless: self.borderless,
            minimum_resolution: (self.minimum_resolution[0], self.minimum_resolution[1]),
            max_monitor_resolution: (
                self.max_monitor_resolution[0],
                self.max_monitor_resolution[1],
            ),
            resolution: (self.resolution[0], self.resolution[1]),
            force_dpi: self.force_dpi,
            dpi: self.dpi@,
            monitor: self.monitor,
        }
    }
}

/// The names of the lines of the settings file.
#[derive(PartialEq, Eq, Structural, Clone, Copy)]
pub enum SettingKey {
    MaxMonitorResolution,
    Resolution,
    Fullscreen,
    Borderless,
    TextureMsaa,
    ModelMsaa,
    Vsync,
    TripleBuffer,
    ForceDpi,
    Dpi,
    Monitor,
    Unknown,
}

pub open spec fn word_true() -> Seq<u8> {
    seq![84u8, 114, 117, 101]
}

pub open spec fn word_false() -> Seq<u8> {
    seq![70u8, 97, 108, 115, 101]
}

pub open spec fn key_text(k: SettingKey) -> Seq<u8> {
    match k {
        SettingKey::MaxMonitorResolution => seq![
            77u8,
            97,
            120,
            77,
            111,
            110,
            105,
            116,
            111,
            114,
            82,
            101,
            115,
            111,
            108,
            117,
            116,
            105,
            111,
            110,
        ],
        SettingKey::Resolution => seq![82u8, 101, 115, 111, 108, 117, 116, 105, 111, 110],
        SettingKey::Fullscreen => seq![70u8, 117, 108, 108, 115, 99, 114, 101, 101, 110],
        SettingKey::Borderless => seq![66u8, 111, 114, 100, 101, 114, 108, 101, 115, 115],
        SettingKey::TextureMsaa => seq![84u8, 101, 120, 116, 117, 114, 101, 77, 115, 97, 97],
        SettingKey::ModelMsaa => seq![77u8, 111, 100, 101, 108, 77, 115, 97, 97],
        SettingKey::Vsync => seq![86u8, 115, 121, 110, 99],
        SettingKey::TripleBuffer => seq![84u8, 114, 105, 112, 108, 101, 66, 117, 102, 102, 101, 114],
        SettingKey::ForceDpi => seq![70u8, 111, 114, 99, 101, 68, 112, 105],
        SettingKey::Dpi => seq![68u8, 112, 105],
        SettingKey::Monitor => seq![77u8, 111, 110, 105, 116, 111, 114],
        SettingKey::Unknown => seq![],
    }
}

/// The setting that a line's first word names.
pub open spec fn setting_key(word: Seq<u8>) -> SettingKey {
    if word == key_text(SettingKey::MaxMonitorResolution) {
        SettingKey::MaxMonitorResolution
    } else if word == key_text(SettingKey::Resolution) {
        SettingKey::Resolution
    } else if word == key_text(SettingKey::Fullscreen) {
        SettingKey::Fullscreen
    } else if word == key_text(SettingKey::Borderless) {
        SettingKey::Borderless
    } else if word == key_text(SettingKey::TextureMsaa) {
        SettingKey::TextureMsaa
    } else if word == key_text(SettingKey::ModelMsaa) {
        SettingKey::ModelMsaa
    } else if word == key_text(SettingKey::Vsync) {
        SettingKey::Vsync
    } else if word == key_text(SettingKey::TripleBuffer) {
        SettingKey::TripleBuffer
    } else if word == key_text(SettingKey::ForceDpi) {
        SettingKey::ForceDpi
    } else if word == key_text(SettingKey::Dpi) {
        SettingKey::Dpi
    } else if word == key_text(SettingKey::Monitor) {
        SettingKey::Monitor
    } else {
        SettingKey::Unknown
    }
}

/// The number of words a line must have for the engine to read it: the two resolution
/// lines take a width and a height, the other known lines one value.
pub open spec fn words_needed(k: SettingKey) -> nat {
    match k {
        SettingKey::MaxMonitorResolution | SettingKey::Resolution => 3,
        SettingKey::Unknown => 1,
        _ => 2,
    }
}

/// Whether a line has the words that its setting needs.
pub open spec fn line_readable(line: Seq<u8>) -> bool {
    let words = split_on(line, 32u8);
    words.len() >= words_needed(setting_key(words[0]))
}

/// Whether every line of a settings text can be read.
pub open spec fn settings_text_readable(text: Seq<u8>) -> bool {
    forall|i: int| 0 <= i < lines_of(text).len() ==> line_readable(#[trigger] lines_of(text)[i])
}

/// The value of a `True`/`False` word, if it is one.
pub open spec fn bool_word(word: Seq<u8>) -> Option<bool> {
    if word == word_true() {
        Some(true)
    } else if word == word_false() {
        Some(false)
    } else {
        None
    }
}

pub open spec fn u32_max() -> nat {
    u32::MAX as nat
}

/// A resolution read from two words: kept only when both are positive numbers.
pub open spec fn read_resolution(w: Seq<u8>, h: Seq<u8>, current: (u32, u32)) -> (u32, u32) {
    match (parse_unsigned(w, u32_max()), parse_unsigned(h, u32_max())) {
        (Some(x), Some(y)) => if x > 0 && y > 0 {
            (x as u32, y as u32)
        } else {
            current
        },
        _ => current,
    }
}

pub open spec fn read_bool(word: Seq<u8>, current: bool) -> bool {
    match bool_word(word) {
        Some(b) => b,
        None => current,
    }
}

pub open spec fn read_u32(word: Seq<u8>, current: u32) -> u32 {
    match parse_unsigned(word, u32_max()) {
        Some(v) => v as u32,
        None => current,
    }
}

pub open spec fn read_usize(word: Seq<u8>, current: usize) -> usize {
    match parse_unsigned(word, usize::MAX as nat) {
        Some(v) => v as usize,
        None => current,
    }
}

/// The settings after reading one line, given as its words.
pub open spec fn apply_line(m: SettingsModel, words: Seq<Seq<u8>>) -> SettingsModel {
    match setting_key(words[0]) {
        SettingKey::MaxMonitorResolution => SettingsModel {
            max_monitor_resolution: read_resolution(words[1], words[2], m.max_monitor_resolution),
            ..m
        },
        SettingKey::Resolution => SettingsModel {
            resolution: read_resolution(words[1], words[2], m.resolution),
            ..m
        },
        SettingKey::Fullscreen => SettingsModel { fullscreen: read_bool(words[1], m.fullscreen), ..m },
        SettingKey::Borderless => SettingsModel { borderless: read_bool(words[1], m.borderless), ..m },
        SettingKey::TextureMsaa => SettingsModel {
            texture_msaa: read_u32(words[1], m.texture_msaa),
            ..m
        },
        SettingKey::ModelMsaa => SettingsModel { model_msaa: read_u32(words[1], m.model_msaa), ..m },
        SettingKey::Vsync => SettingsModel { vsync: read_bool(words[1], m.vsync), ..m },
        SettingKey::TripleBuffer => SettingsModel {
            triple_buffer: read_bool(words[1], m.triple_buffer),
            ..m
        },
        SettingKey::ForceDpi => SettingsModel { force_dpi: read_bool(words[1], m.force_dpi), ..m },
        SettingKey::Dpi => SettingsModel {
            dpi: if is_float_literal(words[1]) {
                words[1]
            } else {
                m.dpi
            },
            ..m
        },
        SettingKey::Monitor => SettingsModel { monitor: read_usize(words[1], m.monitor), ..m },
        SettingKey::Unknown => m,
    }
}

/// The settings after reading the given lines in order.
pub open spec fn apply_lines(m: SettingsModel, lines: Seq<Seq<u8>>) -> SettingsModel
    decreases lines.len(),
{
    if lines.len() == 0 {
        m
    } else {
        apply_lines(apply_line(m, split_on(lines[0], 32u8)), lines.drop_first())
    }
}

/// The words of the lines, among the given ones, whose first word names no setting.
pub open spec fn unknown_lines(lines: Seq<Seq<u8>>) -> Seq<Seq<Seq<u8>>>
    decreases lines.len(),
{
    if lines.len() == 0 {
        seq![]
    } else {
        let words = split_on(lines[0], 32u8);
        let rest = unknown_lines(lines.drop_first());
        if setting_key(words[0]) == SettingKey::Unknown {
            seq![words] + rest
        } else {
            rest
        }
    }
}

/// The settings the engine starts from before it reads the file.
pub open spec fn initial_settings() -> SettingsModel {
    SettingsModel {
        vsync: true,
        triple_buffer: false,
        texture_msaa: 1,
        model_msaa: 1,
        fullscreen: false,
        borderless: true,
        minimum_resolution: (800, 640),
        max_monitor_resolution: (1920, 1080),
        resolution: (1280, 720),
        force_dpi: false,
        dpi: seq![49u8],
        monitor: 0,
    }
}

/// The settings read from the text of a settings file.
pub open spec fn settings_from_text(text: Seq<u8>) -> SettingsModel {
    apply_lines(initial_settings(), lines_of(text))
}

/// The line of a settings file that holds `value` for `k`, with its newline.
pub open spec fn setting_line(k: SettingKey, value: Seq<u8>) -> Seq<u8> {
    key_text(k) + seq![32u8] + value + seq![10u8]
}

pub open spec fn bool_text(b: bool) -> Seq<u8> {
    if b {
        word_true()
    } else {
        word_false()
    }
}

pub open spec fn pair_text(p: (u32, u32)) -> Seq<u8> {
    decimal(p.0 as nat) + seq![32u8] + decimal(p.1 as nat)
}

/// The text of the settings file that holds `m`.
pub open spec fn settings_text(m: SettingsModel) -> Seq<u8> {
    setting_line(SettingKey::Resolution, pair_text(m.resolution)) + setting_line(
        SettingKey::MaxMonitorResolution,
        pair_text(m.max_monitor_resolution),
    ) + setting_line(SettingKey::Fullscreen, bool_text(m.fullscreen)) + setting_line(
        SettingKey::Borderless,
        bool_text(m.borderless),
    ) + setting_line(SettingKey::Monitor, decimal(m.monitor as nat)) + setting_line(
        SettingKey::Vsync,
        bool_text(m.vsync),
    ) + setting_line(SettingKey::TripleBuffer, bool_text(m.triple_buffer)) + setting_line(
        SettingKey::TextureMsaa,
        decimal(m.texture_msaa as nat),
    ) + setting_line(SettingKey::ModelMsaa, decimal(m.model_msaa as nat)) + setting_line(
        SettingKey::ForceDpi,
        bool_text(m.force_dpi),
    ) + setting_line(SettingKey::Dpi, m.dpi)
}

/// The settings that the engine writes when no settings file exists.
pub open spec fn default_file_settings() -> SettingsModel {
    SettingsModel {
        vsync: true,
        triple_buffer: false,
        texture_msaa: 2,
        model_msaa: 2,
        fullscreen: false,
        borderless: true,
        minimum_resolution: (800, 640),
        max_monitor_resolution: (1920, 1080),
        resolution: (1280, 720),
        force_dpi: false,
        dpi: seq![49u8],
        monitor: 0,
    }
}

fn key_bytes(k: SettingKey) -> (r: Vec<u8>)
    ensures
        r@ == key_text(k),
{
    let r = match k {
        SettingKey::MaxMonitorResolution => vec![
            77u8,
            97,
            120,
            77,
            111,
            110,
            105,
            116,
            111,
            114,
            82,
            101,
            115,
            111,
            108,
            117,
            116,
            105,
            111,
            110,
        ],
        SettingKey::Resolution => vec![82u8, 101, 115, 111, 108, 117, 116, 105, 111, 110],
        SettingKey::Fullscreen => vec![70u8, 117, 108, 108, 115, 99, 114, 101, 101, 110],
        SettingKey::Borderless => vec![66u8, 111, 114, 100, 101, 114, 108, 101, 115, 115],
        SettingKey::TextureMsaa => vec![84u8, 101, 120, 116, 117, 114, 101, 77, 115, 97, 97],
        SettingKey::ModelMsaa => vec![77u8, 111, 100, 101, 108, 77, 115, 97, 97],
        SettingKey::Vsync => vec![86u8, 115, 121, 110, 99],
        SettingKey::TripleBuffer => vec![84u8, 114, 105, 112, 108, 101, 66, 117, 102, 102, 101, 114],
        SettingKey::ForceDpi => vec![70u8, 111, 114, 99, 101, 68, 112, 105],
        SettingKey::Dpi => vec![68u8, 112, 105],
        SettingKey::Monitor => vec![77u8, 111, 110, 105, 116, 111, 114],
        SettingKey::Unknown => vec![],
    };
    assert(r@ =~= key_text(k));
    r
}

/// The words of each line of a sequence of lines held as vectors.
pub open spec fn word_lists(v: Seq<Vec<Vec<u8>>>) -> Seq<Seq<Seq<u8>>> {
    v.map_values(|w: Vec<Vec<u8>>| vviews(w@))
}

/// The setting that `word` names.
pub fn setting_key_of(word: &[u8]) -> (k: SettingKey)
    ensures
        k == setting_key(word@),
{
    if bytes_equal(word, &key_bytes(SettingKey::MaxMonitorResolution)) {
        SettingKey::MaxMonitorResolution
    } else if bytes_equal(word, &key_bytes(SettingKey::Resolution)) {
        SettingKey::Resolution
    } else if bytes_equal(word, &key_bytes(SettingKey::Fullscreen)) {
        SettingKey::Fullscreen
    } else if bytes_equal(word, &key_bytes(SettingKey::Borderless)) {
        SettingKey::Borderless
    } else if bytes_equal(word, &key_bytes(SettingKey::TextureMsaa)) {
        SettingKey::TextureMsaa
    } else if bytes_equal(word, &key_bytes(SettingKey::ModelMsaa)) {
        SettingKey::ModelMsaa
    } else if bytes_equal(word, &key_bytes(SettingKey::Vsync)) {
        SettingKey::Vsync
    } else if bytes_equal(word, &key_bytes(SettingKey::TripleBuffer)) {
        SettingKey::TripleBuffer
    } else if bytes_equal(word, &key_bytes(SettingKey::ForceDpi)) {
        SettingKey::ForceDpi
    } else if bytes_equal(word, &key_bytes(SettingKey::Dpi)) {
        SettingKey::Dpi
    } else if bytes_equal(word, &key_bytes(SettingKey::Monitor)) {
        SettingKey::Monitor
    } else {
        SettingKey::Unknown
    }
}

/// Whether every line of a settings text has the words that its setting needs: the
/// engine stops on a line that does not.
pub fn settings_text_is_readable(text: &[u8]) -> (r: bool)
    ensures
        r == settings_text_readable(text@),
{
    let lines = split_lines(text);
    let ghost all = vviews(lines@);
    let mut i: usize = 0;
    while i < lines.len()
        invariant
            all == vviews(lines@),
            all == lines_of(text@),
            i <= lines@.len(),
            forall|j: int| 0 <= j < i ==> line_readable(#[trigger] all[j]),
        decreases lines@.len() - i,
    {
        let words = split_bytes(&lines[i], 32u8);
        proof {
            assert(all[i as int] == lines@[i as int]@);
            lemma_split_on_nonempty(all[i as int], 32u8);
        }
        assert(vviews(words@)[0] == words@[0]@);
        let key = setting_key_of(&words[0]);
        let needed: usize = match key {
            SettingKey::MaxMonitorResolution | SettingKey::Resolution => 3,
            SettingKey::Unknown => 1,
            _ => 2,
        };
        if words.len() < needed {
            assert(!line_readable(all[i as int]));
            return false;
        }
        i = i + 1;
    }
    true
}

fn true_bytes() -> (r: Vec<u8>)
    ensures
        r@ == word_true(),
{
    let r = vec![84u8, 114, 117, 101];
    assert(r@ =~= word_true());
    r
}

fn false_bytes() -> (r: Vec<u8>)
    ensures
        r@ == word_false(),
{
    let r = vec![70u8, 97, 108, 115, 101];
    assert(r@ =~= word_false());
    r
}

fn read_bool_word(word: &[u8], current: bool) -> (r: bool)
    ensures
        r == read_bool(word@, current),
{
    if bytes_equal(word, &true_bytes()) {
        true
    } else if bytes_equal(word, &false_bytes()) {
        false
    } else {
        current
    }
}

fn read_u32_word(word: &[u8], current: u32) -> (r: u32)
    ensures
        r == read_u32(word@, current),
{
    match parse_unsigned_bytes(word, 4294967295u64) {
        Some(v) => v as u32,
        None => current,
    }
}

fn read_resolution_words(w: &[u8], h: &[u8], current: [u32; 2]) -> (r: [u32; 2])
    ensures
        (r[0], r[1]) == read_resolution(w@, h@, (current[0], current[1])),
{
    let x = parse_unsigned_bytes(w, 4294967295u64);
    let y = parse_unsigned_bytes(h, 4294967295u64);
    match (x, y) {
        (Some(x), Some(y)) => {
            if x > 0 && y > 0 {
                [x as u32, y as u32]
            } else {
                current
            }
        },
        _ => current,
    }
}

impl Settings {
    /// The settings the engine uses before it reads the settings file, and when there
    /// is none.
    pub fn initial() -> (s: Settings)
        ensures
            s@ == initial_settings(),
    {
        let dpi = vec![49u8];
        assert(dpi@ =~= seq![49u8]);
        proof {
            lemma_one_is_float_literal();
        }
        Settings {
            vsync: true,
            triple_buffer: false,
            texture_msaa: 1,
            model_msaa: 1,
            fullscreen: false,
            borderless: true,
            minimum_resolution: [800, 640],
            max_monitor_resolution: [1920, 1080],
            resolution: [1280, 720],
            force_dpi: false,
            dpi,
            monitor: 0,
        }
    }

    /// Reads one line of the settings file, given as its words; returns whether the
    /// line names a setting.
    pub fn apply_words(&mut self, words: &Vec<Vec<u8>>) -> (known: bool)
        requires
            words@.len() >= 1,
            words@.len() >= words_needed(setting_key(words@[0]@)),
        ensures
            final(self)@ == apply_line(old(self)@, vviews(words@)),
            known == (setting_key(words@[0]@) != SettingKey::Unknown),
    {
        proof {
            use_type_invariant(&*self);
        }
        let key = setting_key_of(&words[0]);
        let ghost w = vviews(words@);
        assert(w[0] == words@[0]@);
        match key {
            SettingKey::MaxMonitorResolution => {
                assert(w[1] == words@[1]@ && w[2] == words@[2]@);
                self.max_monitor_resolution = read_resolution_words(
                    &words[1],
                    &words[2],
                    self.max_monitor_resolution,
                );
            },
            SettingKey::Resolution => {
                assert(w[1] == words@[1]@ && w[2] == words@[2]@);
                self.resolution = read_resolution_words(&words[1], &words[2], self.resolution);
            },
            SettingKey::Fullscreen => {
                assert(w[1] == words@[1]@);
                self.fullscreen = read_bool_word(&words[1], self.fullscreen);
            },
            SettingKey::Borderless => {
                assert(w[1] == words@[1]@);
                self.borderless = read_bool_word(&words[1], self.borderless);
            },
            SettingKey::TextureMsaa => {
                assert(w[1] == words@[1]@);
                self.texture_msaa = read_u32_word(&words[1], self.texture_msaa);
            },
            SettingKey::ModelMsaa => {
                assert(w[1] == words@[1]@);
                self.model_msaa = read_u32_word(&words[1], self.model_msaa);
            },
            SettingKey::Vsync => {
                assert(w[1] == words@[1]@);
                self.vsync = read_bool_word(&words[1], self.vsync);
            },
            SettingKey::TripleBuffer => {
                assert(w[1] == words@[1]@);
                self.triple_buffer = read_bool_word(&words[1], self.triple_buffer);
            },
            SettingKey::ForceDpi => {
                assert(w[1] == words@[1]@);
                self.force_dpi = read_bool_word(&words[1], self.force_dpi);
            },
            SettingKey::Dpi => {
                assert(w[1] == words@[1]@);
                if is_float_literal_bytes(&words[1]) {
                    self.dpi = words[1].clone();
                }
            },
            SettingKey::Monitor => {
                assert(w[1] == words@[1]@);
                match parse_unsigned_bytes(&words[1], usize::MAX as u64) {
                    Some(v) => {
                        self.monitor = v as usize;
                    },
                    None => {},
                }
            },
            SettingKey::Unknown => {},
        }
        key != SettingKey::Unknown
    }

    /// Reads the text of a settings file. Returns the settings, and the words of each
    /// line that names no setting, in file order.
    pub fn load_from_text(text: &[u8]) -> (r: (Settings, Vec<Vec<Vec<u8>>>))
        requires
            vstd::utf8::valid_utf8(text@),
            settings_text_readable(text@),
        ensures
            r.0@ == settings_from_text(text@),
            word_lists(r.1@) == unknown_lines(lines_of(text@)),
    {
        let lines = split_lines(text);
        let ghost all = vviews(lines@);
        let mut settings = Settings::initial();
        let mut unknown: Vec<Vec<Vec<u8>>> = Vec::new();
        let mut i: usize = 0;
        assert(all.skip(0) =~= all);
        assert(word_lists(unknown@) + unknown_lines(all) =~= unknown_lines(all));
        while i < lines.len()
            invariant
                all == vviews(lines@),
                all == lines_of(text@),
                settings_text_readable(text@),
                i <= lines@.len(),
                apply_lines(settings@, all.skip(i as int)) == apply_lines(
                    initial_settings(),
                    all,
                ),
                word_lists(unknown@) + unknown_lines(all.skip(i as int)) == unknown_lines(all),
            decreases lines@.len() - i,
        {
            let words = split_bytes(&lines[i], 32u8);
            proof {
                assert(all[i as int] == lines@[i as int]@);
                assert(line_readable(all[i as int]));
                crate::bytes::lemma_split_on_nonempty(lines@[i as int]@, 32u8);
                assert(all.skip(i as int).drop_first() =~= all.skip(i + 1));
                assert(all.skip(i as int)[0] == all[i as int]);
            }
            let ghost before = settings@;
            let known = settings.apply_words(&words);
            let ghost old_unknown = word_lists(unknown@);
            if !known {
                unknown.push(words);
                assert(word_lists(unknown@) =~= old_unknown.push(vviews(words@)));
                assert(word_lists(unknown@) + unknown_lines(all.skip(i + 1)) =~= old_unknown + (seq![
                    vviews(words@),
                ] + unknown_lines(all.skip(i + 1))));
            }
            i = i + 1;
        }
        (settings, unknown)
    }
}

fn push_bytes(out: &mut Vec<u8>, b: &[u8])
    ensures
        final(out)@ == old(out)@ + b@,
{
    let mut i: usize = 0;
    while i < b.len()
        invariant
            i <= b@.len(),
            out@ == old(out)@ + b@.take(i as int),
        decreases b@.len() - i,
    {
        out.push(b[i]);
        i = i + 1;
        assert(out@ =~= old(out)@ + b@.take(i as int));
    }
    assert(b@.take(b@.len() as int) =~= b@);
}

/// Appends the line of the settings file that holds `value` for `k`.
fn push_setting_line(out: &mut Vec<u8>, k: SettingKey, value: &[u8])
    ensures
        final(out)@ == old(out)@ + setting_line(k, value@),
{
    push_bytes(out, &key_bytes(k));
    out.push(32u8);
    push_bytes(out, value);
    out.push(10u8);
    assert(out@ =~= old(out)@ + setting_line(k, value@));
}

fn bool_bytes(b: bool) -> (r: Vec<u8>)
    ensures
        r@ == bool_text(b),
{
    if b {
        true_bytes()
    } else {
        false_bytes()
    }
}

fn decimal_bytes(n: u64) -> (r: Vec<u8>)
    ensures
        r@ == decimal(n as nat),
{
    let mut r: Vec<u8> = Vec::new();
    push_decimal(n, &mut r);
    assert(r@ =~= decimal(n as nat));
    r
}

fn pair_bytes(p: [u32; 2]) -> (r: Vec<u8>)
    ensures
        r@ == pair_text((p[0], p[1])),
{
    let mut r: Vec<u8> = Vec::new();
    push_decimal(p[0] as u64, &mut r);
    r.push(32u8);
    push_decimal(p[1] as u64, &mut r);
    assert(r@ =~= pair_text((p[0], p[1])));
    r
}

impl Settings {
    /// The text that saving these settings writes to the settings file.
    ///
    /// Reading that text back gives these same settings whenever both resolutions are
    /// positive, and every line of it is known and can be read.
    pub fn to_text(&self) -> (r: Vec<u8>)
        ensures
            r@ == settings_text(self@),
            self@.resolution.0 > 0 && self@.resolution.1 > 0 && self@.max_monitor_resolution.0
                > 0 && self@.max_monitor_resolution.1 > 0 ==> {
                &&& settings_from_text(r@) == self@
                &&& unknown_lines(lines_of(r@)) == Seq::<Seq<Seq<u8>>>::empty()
                &&& settings_text_readable(r@)
            },
    {
        proof {
            use_type_invariant(self);
            if self@.resolution.0 > 0 && self@.resolution.1 > 0 && self@.max_monitor_resolution.0
                > 0 && self@.max_monitor_resolution.1 > 0 {
                lemma_settings_text_round_trip(self@);
            }
        }
        let mut out: Vec<u8> = Vec::new();
        push_setting_line(&mut out, SettingKey::Resolution, &pair_bytes(self.resolution));
        assert(out@ =~= setting_line(SettingKey::Resolution, pair_text(self@.resolution)));
        push_setting_line(
            &mut out,
            SettingKey::MaxMonitorResolution,
            &pair_bytes(self.max_monitor_resolution),
        );
        push_setting_line(&mut out, SettingKey::Fullscreen, &bool_bytes(self.fullscreen));
        push_setting_line(&mut out, SettingKey::Borderless, &bool_bytes(self.borderless));
        push_setting_line(&mut out, SettingKey::Monitor, &decimal_bytes(self.monitor as u64));
        push_setting_line(&mut out, SettingKey::Vsync, &bool_bytes(self.vsync));
        push_setting_line(&mut out, SettingKey::TripleBuffer, &bool_bytes(self.triple_buffer));
        push_setting_line(
            &mut out,
            SettingKey::TextureMsaa,
            &decimal_bytes(self.texture_msaa as u64),
        );
        push_setting_line(&mut out, SettingKey::ModelMsaa, &decimal_bytes(self.model_msaa as u64));
        push_setting_line(&mut out, SettingKey::ForceDpi, &bool_bytes(self.force_dpi));
        push_setting_line(&mut out, SettingKey::Dpi, &self.dpi);
        out
    }

    /// The settings written to a new settings file when none exists.
    pub fn default_file_settings() -> (s: Settings)
        ensures
            s@ == default_file_settings(),
    {
        let dpi = vec![49u8];
        assert(dpi@ =~= seq![49u8]);
        proof {
            lemma_one_is_float_literal();
        }
        Settings {
            vsync: true,
            triple_buffer: false,
            texture_msaa: 2,
            model_msaa: 2,
            fullscreen: false,
            borderless: true,
            minimum_resolution: [800, 640],
            max_monitor_resolution: [1920, 1080],
            resolution: [1280, 720],
            force_dpi: false,
            dpi,
            monitor: 0,
        }
    }

    /// The text written to a new settings file when none exists.
    pub fn default_text() -> (r: Vec<u8>)
        ensures
            r@ == settings_text(default_file_settings()),
    {
        Settings::default_file_settings().to_text()
    }

    pub fn vsync_enabled(&self) -> (r: bool)
        ensures
            r == self@.vsync,
    {
        self.vsync
    }

    pub fn triple_buffer_enabled(&self) -> (r: bool)
        ensures
            r == self@.triple_buffer,
    {
        self.triple_buffer
    }

    pub fn set_texture_msaa(&mut self, msaa: u32)
        ensures
            final(self)@ == (SettingsModel { texture_msaa: msaa, ..old(self)@ }),
    {
        proof {
            use_type_invariant(&*self);
        }
        self.texture_msaa = msaa;
    }

    pub fn set_model_msaa(&mut self, msaa: u32)
        ensures
            final(self)@ == (SettingsModel { model_msaa: msaa, ..old(self)@ }),
    {
        proof {
            use_type_invariant(&*self);
        }
        self.model_msaa = msaa;
    }

    pub fn get_texture_msaa(&self) -> (r: u32)
        ensures
            r == self@.texture_msaa,
    {
        self.texture_msaa
    }

    pub fn get_model_msaa(&self) -> (r: u32)
        ensures
            r == self@.model_msaa,
    {
        self.model_msaa
    }

    pub fn is_fullscreen(&self) -> (r: bool)
        ensures
            r == self@.fullscreen,
    {
        self.fullscreen
    }

    pub fn get_minimum_resolution(&self) -> (r: [u32; 2])
        ensures
            (r[0], r[1]) == self@.minimum_resolution,
            r[0] == 800 && r[1] == 640,
    {
        proof {
            use_type_invariant(self);
        }
        self.minimum_resolution
    }

    /// Sets the resolution; each component is taken as `as u32` takes it, so a negative
    /// one wraps around.
    pub fn set_resolution(&mut self, x: i32, y: i32)
        ensures
            final(self)@ == (SettingsModel { resolution: (x as u32, y as u32), ..old(self)@ }),
    {
        proof {
            use_type_invariant(&*self);
        }
        self.resolution = [x as u32, y as u32];
    }

    pub fn max_monitor_resolution(&self) -> (r: [u32; 2])
        ensures
            (r[0], r[1]) == self@.max_monitor_resolution,
    {
        self.max_monitor_resolution
    }

    /// Sets the largest resolution of the monitor; each component is taken as `as u32`
    /// takes it.
    pub fn set_max_monitor_resolution(&mut self, x: i32, y: i32)
        ensures
            final(self)@ == (SettingsModel {
                max_monitor_resolution: (x as u32, y as u32),
                ..old(self)@
            }),
    {
        proof {
            use_type_invariant(&*self);
        }
        self.max_monitor_resolution = [x as u32, y as u32];
    }

    /// Sets the DPI scale, given as the text of the number.
    pub fn _set_dpi(&mut self, new_dpi: Vec<u8>)
        requires
            is_float_literal(new_dpi@),
        ensures
            final(self)@ == (SettingsModel { dpi: new_dpi@, ..old(self)@ }),
    {
        proof {
            use_type_invariant(&*self);
        }
        self.dpi = new_dpi;
    }

    pub fn _enable_dpi(&mut self, enable: bool)
        ensures
            final(self)@ == (SettingsModel { force_dpi: enable, ..old(self)@ }),
    {
        proof {
            use_type_invariant(&*self);
        }
        self.force_dpi = enable;
    }

    pub fn set_vsync(&mut self, enable: bool)
        ensures
            final(self)@ == (SettingsModel { vsync: enable, ..old(self)@ }),
    {
        proof {
            use_type_invariant(&*self);
        }
        self.vsync = enable;
    }

    pub fn enable_fullscreen(&mut self, enable: bool)
        ensures
            final(self)@ == (SettingsModel { fullscreen: enable, ..old(self)@ }),
    {
        proof {
            use_type_invariant(&*self);
        }
        self.fullscreen = enable;
    }

    pub fn get_resolution(&self) -> (r: [u32; 2])
        ensures
            (r[0], r[1]) == self@.resolution,
    {
        self.resolution
    }

    pub fn get_monitor_idx(&self) -> (r: usize)
        ensures
            r == self@.monitor,
    {
        self.monitor
    }

    pub fn is_borderless(&self) -> (r: bool)
        ensures
            r == self@.borderless,
    {
        self.borderless
    }

    /// Whether the DPI scale is forced to the value in the settings.
    pub fn is_dpi_forced(&self) -> (r: bool)
        ensures
            r == self@.force_dpi,
    {
        self.force_dpi
    }

    /// The text of the DPI scale, which reads as a number.
    pub fn dpi_text(&self) -> (r: &[u8])
        ensures
            r@ == self@.dpi,
            is_float_literal(r@),
    {
        proof {
            use_type_invariant(self);
        }
        self.dpi.as_slice()
    }
}

pub proof fn lemma_apply_lines_append(m: SettingsModel, a: Seq<Seq<u8>>, b: Seq<Seq<u8>>)
    ensures
        apply_lines(m, a + b) == apply_lines(apply_lines(m, a), b),
        unknown_lines(a + b) == unknown_lines(a) + unknown_lines(b),
    decreases a.len(),
{
    if a.len() == 0 {
        assert(a + b =~= b);
        assert(unknown_lines(a) + unknown_lines(b) =~= unknown_lines(b));
    } else {
        assert((a + b).drop_first() =~= a.drop_first() + b);
        assert((a + b)[0] == a[0]);
        lemma_apply_lines_append(apply_line(m, split_on(a[0], 32u8)), a.drop_first(), b);
        let w = split_on(a[0], 32u8);
        if setting_key(w[0]) == SettingKey::Unknown {
            assert(unknown_lines(a + b) =~= unknown_lines(a) + unknown_lines(b));
        }
    }
}

pub open spec fn plain_text(s: Seq<u8>) -> bool {
    forall|i: int| 0 <= i < s.len() ==> !is_blank(#[trigger] s[i])
}

proof fn lemma_key_text(k: SettingKey)
    requires
        k != SettingKey::Unknown,
    ensures
        plain_text(key_text(k)),
        key_text(k).len() > 0,
        setting_key(key_text(k)) == k,
{
    let t = key_text(k);
    assert forall|i: int| 0 <= i < t.len() implies !is_blank(#[trigger] t[i]) by {
        assert(65u8 <= t[i] <= 122u8);
    }
    let res = key_text(SettingKey::Resolution);
    let full = key_text(SettingKey::Fullscreen);
    let bord = key_text(SettingKey::Borderless);
    assert(res[0] != full[0]);
    assert(res[0] != bord[0]);
    assert(full[0] != bord[0]);
}

proof fn lemma_decimal_plain(n: nat)
    ensures
        plain_text(decimal(n)),
        decimal(n).len() > 0,
{
    lemma_decimal(n);
    assert forall|i: int| 0 <= i < decimal(n).len() implies !is_blank(#[trigger] decimal(n)[i]) by {
        assert(crate::number::is_digit(decimal(n)[i]));
    }
}

/// The line of a setting with one value reads back that value.
proof fn lemma_single_line(m: SettingsModel, k: SettingKey, value: Seq<u8>)
    requires
        k != SettingKey::Unknown,
        k != SettingKey::Resolution,
        k != SettingKey::MaxMonitorResolution,
        plain_text(value),
        value.len() > 0,
    ensures
        lines_of(setting_line(k, value)) == seq![key_text(k) + seq![32u8] + value],
        split_on(key_text(k) + seq![32u8] + value, 32u8) == seq![key_text(k), value],
        setting_key(key_text(k)) == k,
{
    lemma_key_text(k);
    let c = key_text(k) + seq![32u8] + value;
    assert forall|i: int| 0 <= i < c.len() implies c[i] != 10u8 by {
        if i < key_text(k).len() {
            assert(c[i] == key_text(k)[i]);
        } else if i > key_text(k).len() {
            assert(c[i] == value[i - key_text(k).len() - 1]);
        }
    }
    assert(c.last() == value.last());
    assert(setting_line(k, value) =~= c + seq![10u8]);
    lemma_lines_of_line(c);
    lemma_split_on_prefix(key_text(k), value, 32u8);
    lemma_split_on_whole(value, 32u8);
    assert(seq![key_text(k)] + seq![value] =~= seq![key_text(k), value]);
}

/// The line of a resolution reads back both numbers.
proof fn lemma_pair_line(k: SettingKey, p: (u32, u32))
    requires
        k == SettingKey::Resolution || k == SettingKey::MaxMonitorResolution,
    ensures
        lines_of(setting_line(k, pair_text(p))) == seq![
            key_text(k) + seq![32u8] + pair_text(p),
        ],
        split_on(key_text(k) + seq![32u8] + pair_text(p), 32u8) == seq![
            key_text(k),
            decimal(p.0 as nat),
            decimal(p.1 as nat),
        ],
        setting_key(key_text(k)) == k,
{
    lemma_key_text(k);
    let d0 = decimal(p.0 as nat);
    let d1 = decimal(p.1 as nat);
    lemma_decimal_plain(p.0 as nat);
    lemma_decimal_plain(p.1 as nat);
    let value = pair_text(p);
    let c = key_text(k) + seq![32u8] + value;
    assert forall|i: int| 0 <= i < value.len() implies value[i] != 10u8 && value[i] != 13u8 by {
        if i < d0.len() {
            assert(value[i] == d0[i]);
        } else if i > d0.len() {
            assert(value[i] == d1[i - d0.len() - 1]);
        }
    }
    assert forall|i: int| 0 <= i < c.len() implies c[i] != 10u8 by {
        if i < key_text(k).len() {
            assert(c[i] == key_text(k)[i]);
        } else if i > key_text(k).len() {
            assert(c[i] == value[i - key_text(k).len() - 1]);
        }
    }
    assert(c.last() == value.last());
    assert(setting_line(k, value) =~= c + seq![10u8]);
    lemma_lines_of_line(c);
    assert(c =~= key_text(k) + seq![32u8] + (d0 + seq![32u8] + d1));
    lemma_split_on_prefix(key_text(k), d0 + seq![32u8] + d1, 32u8);
    lemma_split_on_prefix(d0, d1, 32u8);
    lemma_split_on_whole(d1, 32u8);
    assert(seq![key_text(k)] + (seq![d0] + seq![d1]) =~= seq![key_text(k), d0, d1]);
}

proof fn lemma_bool_text(b: bool)
    ensures
        plain_text(bool_text(b)),
        bool_text(b).len() > 0,
        bool_word(bool_text(b)) == Some(b),
{
    let t = bool_text(b);
    assert forall|i: int| 0 <= i < t.len() implies !is_blank(#[trigger] t[i]) by {
        assert(65u8 <= t[i] <= 122u8);
    }
    assert(word_true().len() != word_false().len());
}

/// Reads one line of the settings text: the lines before it, then the line.
proof fn lemma_step(
    m: SettingsModel,
    prefix: Seq<u8>,
    k: SettingKey,
    value: Seq<u8>,
    words: Seq<Seq<u8>>,
)
    requires
        prefix.len() == 0 || prefix.last() == 10u8,
        k != SettingKey::Unknown,
        lines_of(setting_line(k, value)) == seq![key_text(k) + seq![32u8] + value],
        split_on(key_text(k) + seq![32u8] + value, 32u8) == words,
        setting_key(words[0]) == k,
        words.len() >= words_needed(k),
    ensures
        lines_of(prefix + setting_line(k, value)) == lines_of(prefix) + seq![
            key_text(k) + seq![32u8] + value,
        ],
        apply_lines(m, lines_of(prefix + setting_line(k, value))) == apply_line(
            apply_lines(m, lines_of(prefix)),
            words,
        ),
        unknown_lines(lines_of(prefix + setting_line(k, value))) == unknown_lines(
            lines_of(prefix),
        ),
        line_readable(key_text(k) + seq![32u8] + value),
{
    lemma_lines_of_append(prefix, setting_line(k, value));
    let c = key_text(k) + seq![32u8] + value;
    lemma_apply_lines_append(m, lines_of(prefix), seq![c]);
    let x = apply_lines(m, lines_of(prefix));
    assert(seq![c].drop_first() =~= Seq::<Seq<u8>>::empty());
    assert(seq![c][0] == c);
    assert(apply_lines(apply_line(x, words), Seq::<Seq<u8>>::empty()) == apply_line(x, words));
    assert(apply_lines(x, seq![c]) == apply_line(x, words));
    assert(unknown_lines(Seq::<Seq<u8>>::empty()) =~= Seq::<Seq<Seq<u8>>>::empty());
    assert(unknown_lines(seq![c]) =~= Seq::<Seq<Seq<u8>>>::empty());
    assert(unknown_lines(lines_of(prefix)) + Seq::<Seq<Seq<u8>>>::empty() =~= unknown_lines(
        lines_of(prefix),
    ));
}

proof fn lemma_readable_step(prev: Seq<Seq<u8>>, c: Seq<u8>)
    requires
        forall|j: int| 0 <= j < prev.len() ==> line_readable(#[trigger] prev[j]),
        line_readable(c),
    ensures
        forall|j: int| 0 <= j < (prev + seq![c]).len() ==> line_readable(#[trigger] (prev + seq![c])[j]),
{
    assert forall|j: int| 0 <= j < (prev + seq![c]).len() implies line_readable(#[trigger] (prev + seq![c])[j]) by {
        if j < prev.len() {
            assert((prev + seq![c])[j] == prev[j]);
        } else {
            assert((prev + seq![c])[j] == c);
        }
    }
}

/// The text `p` is whole lines, each of which can be read; reading them from the
/// initial settings gives `st`, and none of them is unknown.
#[verifier::opaque]
pub open spec fn prefix_reads(p: Seq<u8>, st: SettingsModel) -> bool {
    &&& p.len() == 0 || p.last() == 10u8
    &&& apply_lines(initial_settings(), lines_of(p)) == st
    &&& unknown_lines(lines_of(p)) == Seq::<Seq<Seq<u8>>>::empty()
    &&& forall|j: int| 0 <= j < lines_of(p).len() ==> line_readable(#[trigger] lines_of(p)[j])
}

proof fn lemma_prefix_start()
    ensures
        prefix_reads(Seq::<u8>::empty(), initial_settings()),
{
    reveal(prefix_reads);
    assert(lines_of(Seq::<u8>::empty()) =~= Seq::<Seq<u8>>::empty());
    assert(unknown_lines(Seq::<Seq<u8>>::empty()) =~= Seq::<Seq<Seq<u8>>>::empty());
}

proof fn lemma_prefix_step(
    p: Seq<u8>,
    st: SettingsModel,
    k: SettingKey,
    value: Seq<u8>,
    words: Seq<Seq<u8>>,
    st2: SettingsModel,
)
    requires
        prefix_reads(p, st),
        k != SettingKey::Unknown,
        lines_of(setting_line(k, value)) == seq![key_text(k) + seq![32u8] + value],
        split_on(key_text(k) + seq![32u8] + value, 32u8) == words,
        setting_key(words[0]) == k,
        words.len() >= words_needed(k),
        apply_line(st, words) == st2,
    ensures
        prefix_reads(p + setting_line(k, value), st2),
{
    reveal(prefix_reads);
    lemma_step(initial_settings(), p, k, value, words);
    lemma_readable_step(lines_of(p), key_text(k) + seq![32u8] + value);
    assert((p + setting_line(k, value)).last() == 10u8);
}

proof fn lemma_read_pair_line(p: Seq<u8>, st: SettingsModel, k: SettingKey, v: (u32, u32))
    requires
        prefix_reads(p, st),
        k == SettingKey::Resolution || k == SettingKey::MaxMonitorResolution,
        v.0 > 0,
        v.1 > 0,
    ensures
        prefix_reads(
            p + setting_line(k, pair_text(v)),
            if k == SettingKey::Resolution {
                SettingsModel { resolution: v, ..st }
            } else {
                SettingsModel { max_monitor_resolution: v, ..st }
            },
        ),
{
    lemma_pair_line(k, v);
    lemma_parse_decimal(v.0 as nat, u32_max());
    lemma_parse_decimal(v.1 as nat, u32_max());
    let words = seq![key_text(k), decimal(v.0 as nat), decimal(v.1 as nat)];
    lemma_prefix_step(
        p,
        st,
        k,
        pair_text(v),
        words,
        if k == SettingKey::Resolution {
            SettingsModel { resolution: v, ..st }
        } else {
            SettingsModel { max_monitor_resolution: v, ..st }
        },
    );
}

proof fn lemma_read_bool_line(p: Seq<u8>, st: SettingsModel, k: SettingKey, b: bool)
    requires
        prefix_reads(p, st),
        k == SettingKey::Fullscreen || k == SettingKey::Borderless || k == SettingKey::Vsync
            || k == SettingKey::TripleBuffer || k == SettingKey::ForceDpi,
    ensures
        prefix_reads(
            p + setting_line(k, bool_text(b)),
            match k {
                SettingKey::Fullscreen => SettingsModel { fullscreen: b, ..st },
                SettingKey::Borderless => SettingsModel { borderless: b, ..st },
                SettingKey::Vsync => SettingsModel { vsync: b, ..st },
                SettingKey::TripleBuffer => SettingsModel { triple_buffer: b, ..st },
                _ => SettingsModel { force_dpi: b, ..st },
            },
        ),
{
    lemma_bool_text(b);
    lemma_single_line(st, k, bool_text(b));
    let words = seq![key_text(k), bool_text(b)];
    lemma_prefix_step(
        p,
        st,
        k,
        bool_text(b),
        words,
        match k {
            SettingKey::Fullscreen => SettingsModel { fullscreen: b, ..st },
            SettingKey::Borderless => SettingsModel { borderless: b, ..st },
            SettingKey::Vsync => SettingsModel { vsync: b, ..st },
            SettingKey::TripleBuffer => SettingsModel { triple_buffer: b, ..st },
            _ => SettingsModel { force_dpi: b, ..st },
        },
    );
}

proof fn lemma_read_number_line(p: Seq<u8>, st: SettingsModel, k: SettingKey, n: nat, max: nat)
    requires
        prefix_reads(p, st),
        k == SettingKey::Monitor && max == usize::MAX as nat || (k == SettingKey::TextureMsaa
            || k == SettingKey::ModelMsaa) && max == u32_max(),
        n <= max,
    ensures
        prefix_reads(
            p + setting_line(k, decimal(n)),
            match k {
                SettingKey::Monitor => SettingsModel { monitor: n as usize, ..st },
                SettingKey::TextureMsaa => SettingsModel { texture_msaa: n as u32, ..st },
                _ => SettingsModel { model_msaa: n as u32, ..st },
            },
        ),
{
    lemma_decimal_plain(n);
    lemma_parse_decimal(n, max);
    lemma_single_line(st, k, decimal(n));
    let words = seq![key_text(k), decimal(n)];
    lemma_prefix_step(
        p,
        st,
        k,
        decimal(n),
        words,
        match k {
            SettingKey::Monitor => SettingsModel { monitor: n as usize, ..st },
            SettingKey::TextureMsaa => SettingsModel { texture_msaa: n as u32, ..st },
            _ => SettingsModel { model_msaa: n as u32, ..st },
        },
    );
}

proof fn lemma_read_dpi_line(p: Seq<u8>, st: SettingsModel, d: Seq<u8>)
    requires
        prefix_reads(p, st),
        is_float_literal(d),
    ensures
        prefix_reads(p + setting_line(SettingKey::Dpi, d), SettingsModel { dpi: d, ..st }),
{
    lemma_float_literal_not_blank(d);
    assert(d.len() > 0);
    lemma_single_line(st, SettingKey::Dpi, d);
    let words = seq![key_text(SettingKey::Dpi), d];
    lemma_prefix_step(p, st, SettingKey::Dpi, d, words, SettingsModel { dpi: d, ..st });
}

/// Reading back the settings file that saving writes gives the same settings, for
/// settings whose resolutions are positive, whose smallest resolution is the fixed
/// 800 by 640 and whose DPI text is a number; no line of it is unknown, and every
/// line can be read.
pub proof fn lemma_settings_text_round_trip(m: SettingsModel)
    requires
        m.minimum_resolution == (800u32, 640u32),
        m.resolution.0 > 0,
        m.resolution.1 > 0,
        m.max_monitor_resolution.0 > 0,
        m.max_monitor_resolution.1 > 0,
        is_float_literal(m.dpi),
    ensures
        settings_from_text(settings_text(m)) == m,
        unknown_lines(lines_of(settings_text(m))) == Seq::<Seq<Seq<u8>>>::empty(),
        settings_text_readable(settings_text(m)),
{
    let p0 = Seq::<u8>::empty();
    let t0 = initial_settings();
    lemma_prefix_start();
    let p1 = p0 + setting_line(SettingKey::Resolution, pair_text(m.resolution));
    let t1 = SettingsModel { resolution: m.resolution, ..t0 };
    lemma_read_pair_line(p0, t0, SettingKey::Resolution, m.resolution);
    let p2 = p1 + setting_line(SettingKey::MaxMonitorResolution, pair_text(m.max_monitor_resolution));
    let t2 = SettingsModel { max_monitor_resolution: m.max_monitor_resolution, ..t1 };
    lemma_read_pair_line(p1, t1, SettingKey::MaxMonitorResolution, m.max_monitor_resolution);
    let p3 = p2 + setting_line(SettingKey::Fullscreen, bool_text(m.fullscreen));
    let t3 = SettingsModel { fullscreen: m.fullscreen, ..t2 };
    lemma_read_bool_line(p2, t2, SettingKey::Fullscreen, m.fullscreen);
    let p4 = p3 + setting_line(SettingKey::Borderless, bool_text(m.borderless));
    let t4 = SettingsModel { borderless: m.borderless, ..t3 };
    lemma_read_bool_line(p3, t3, SettingKey::Borderless, m.borderless);
    let p5 = p4 + setting_line(SettingKey::Monitor, decimal(m.monitor as nat));
    let t5 = SettingsModel { monitor: m.monitor, ..t4 };
    lemma_read_number_line(p4, t4, SettingKey::Monitor, m.monitor as nat, usize::MAX as nat);
    let p6 = p5 + setting_line(SettingKey::Vsync, bool_text(m.vsync));
    let t6 = SettingsModel { vsync: m.vsync, ..t5 };
    lemma_read_bool_line(p5, t5, SettingKey::Vsync, m.vsync);
    let p7 = p6 + setting_line(SettingKey::TripleBuffer, bool_text(m.triple_buffer));
    let t7 = SettingsModel { triple_buffer: m.triple_buffer, ..t6 };
    lemma_read_bool_line(p6, t6, SettingKey::TripleBuffer, m.triple_buffer);
    let p8 = p7 + setting_line(SettingKey::TextureMsaa, decimal(m.texture_msaa as nat));
    let t8 = SettingsModel { texture_msaa: m.texture_msaa, ..t7 };
    lemma_read_number_line(p7, t7, SettingKey::TextureMsaa, m.texture_msaa as nat, u32_max());
    let p9 = p8 + setting_line(SettingKey::ModelMsaa, decimal(m.model_msaa as nat));
    let t9 = SettingsModel { model_msaa: m.model_msaa, ..t8 };
    lemma_read_number_line(p8, t8, SettingKey::ModelMsaa, m.model_msaa as nat, u32_max());
    let p10 = p9 + setting_line(SettingKey::ForceDpi, bool_text(m.force_dpi));
    let t10 = SettingsModel { force_dpi: m.force_dpi, ..t9 };
    lemma_read_bool_line(p9, t9, SettingKey::ForceDpi, m.force_dpi);
    let p11 = p10 + setting_line(SettingKey::Dpi, m.dpi);
    let t11 = SettingsModel { dpi: m.dpi, ..t10 };
    lemma_read_dpi_line(p10, t10, m.dpi);
    assert(p11 =~= settings_text(m));
    assert(t11 == m);
    reveal(prefix_reads);
}


/// The resolutions the engine offers, each with its aspect ratio.
pub open spec fn resolution_table() -> Seq<(u32, u32, Seq<char>)> {
    seq![
        (2160u32, 1080u32, "(1:2)"@),
        (240u32, 160u32, "(3:2)"@),
        (360u32, 240u32, "(3:2)"@),
        (480u32, 320u32, "(3:2)"@),
        (720u32, 480u32, "(3:2)"@),
        (960u32, 640u32, "(3:2)"@),
        (1152u32, 768u32, "(3:2)"@),
        (1280u32, 864u32, "(3:2)"@),
        (1440u32, 960u32, "(3:2)"@),
        (1600u32, 1024u32, "(3:2)"@),
        (1920u32, 1280u32, "(3:2)"@),
        (2160u32, 1440u32, "(3:2)"@),
        (2400u32, 1600u32, "(3:2)"@),
        (2880u32, 1920u32, "(3:2)"@),
        (3240u32, 2160u32, "(3:2)"@),
        (3840u32, 2560u32, "(3:2)"@),
        (160u32, 120u32, "(4:3)"@),
        (192u32, 144u32, "(4:3)"@),
        (320u32, 240u32, "(4:3)"@),
        (480u32, 360u32, "(4:3)"@),
        (640u32, 480u32, "(4:3)"@),
        (768u32, 576u32, "(4:3)"@),
        (800u32, 600u32, "(4:3)"@),
        (960u32, 720u32, "(4:3)"@),
        (1024u32, 768u32, "(4:3)"@),
        (1152u32, 864u32, "(4:3)"@),
        (1200u32, 900u32, "(4:3)"@),
        (1280u32, 960u32, "(4:3)"@),
        (1400u32, 1050u32, "(4:3)"@),
        (1440u32, 1080u32, "(4:3)"@),
        (1600u32, 1200u32, "(4:3)"@),
        (1920u32, 1440u32, "(4:3)"@),
        (2048u32, 1536u32, "(4:3)"@),
        (2560u32, 1920u32, "(4:3)"@),
        (2880u32, 2160u32, "(4:3)"@),
        (3200u32, 2400u32, "(4:3)"@),
        (4096u32, 3072u32, "(4:3)"@),
        (400u32, 240u32, "(5:3)"@),
        (800u32, 480u32, "(5:3)"@),
        (1280u32, 768u32, "(5:3)"@),
        (400u32, 240u32, "(5:3)"@),
        (750u32, 600u32, "(5:4)"@),
        (960u32, 768u32, "(5:4)"@),
        (1280u32, 1024u32, "(5:4)"@),
        (1500u32, 1200u32, "(5:4)"@),
        (2560u32, 2048u32, "(5:4)"@),
        (3840u32, 1600u32, "(12:5)"@),
        (256u32, 144u32, "(16:9)"@),
        (432u32, 240u32, "(16:9)"@),
        (640u32, 360u32, "(16:9)"@),
        (854u32, 480u32, "(16:9)"@),
        (960u32, 540u32, "(16:9)"@),
        (1024u32, 576u32, "(16:9)"@),
        (1136u32, 640u32, "(16:9)"@),
        (1280u32, 720u32, "(16:9)"@),
        (1366u32, 768u32, "(16:9)"@),
        (1536u32, 864u32, "(16:9)"@),
        (1600u32, 900u32, "(16:9)"@),
        (1920u32, 1080u32, "(16:9)"@),
        (2048u32, 1152u32, "(16:9)"@),
        (2560u32, 1440u32, "(16:9)"@),
        (2880u32, 1620u32, "(16:9)"@),
        (3200u32, 1800u32, "(16:9)"@),
        (3840u32, 2160u32, "(16:9)"@),
        (5120u32, 2880u32, "(16:9)"@),
        (7680u32, 4320u32, "(16:9)"@),
        (320u32, 200u32, "(16:10)"@),
        (384u32, 240u32, "(16:10)"@),
        (768u32, 480u32, "(16:10)"@),
        (1024u32, 640u32, "(16:10)"@),
        (1152u32, 720u32, "(16:10)"@),
        (1280u32, 800u32, "(16:10)"@),
        (1440u32, 900u32, "(16:10)"@),
        (1680u32, 1050u32, "(16:10)"@),
        (1920u32, 1200u32, "(16:10)"@),
        (2304u32, 1440u32, "(16:10)"@),
        (2560u32, 1600u32, "(16:10)"@),
        (2880u32, 1800u32, "(16:10)"@),
        (3072u32, 1920u32, "(16:10)"@),
        (3840u32, 2400u32, "(16:10)"@),
        (4096u32, 2560u32, "(16:10)"@),
        (960u32, 480u32, "(18:9)"@),
        (1440u32, 720u32, "(18:9)"@),
        (2880u32, 1440u32, "(18:9)"@),
        (4320u32, 2160u32, "(18:9)"@),
        (5760u32, 2880u32, "(18:9)"@),
        (2960u32, 1440u32, "(18.5:9)"@),
        (3120u32, 1440u32, "(19.5:9)"@),
        (2560u32, 1080u32, "(21:9)"@),
        (5120u32, 2160u32, "(21:9)"@),
        (3200u32, 2048u32, "(25:16)"@),
        (3840u32, 1080u32, "(32:9)"@),
        (5120u32, 1440u32, "(32:9)"@),
        (3840u32, 1200u32, "(32:10)"@),
        (5760u32, 1600u32, "(36:10)"@),
        (3440u32, 1440u32, "(43:18)"@),
        (1024u32, 600u32, "(128:75)"@),
        (2048u32, 1080u32, "(256:135)"@),
        (4096u32, 2160u32, "(256:135)"@)
    ]
}

impl Settings {
    /// The resolutions the engine offers, each with its aspect ratio.
    pub fn resolutions() -> (r: [(u32, u32, &'static str); 99])
        ensures
            r@.map_values(|e: (u32, u32, &'static str)| (e.0, e.1, e.2@)) == resolution_table(),
    {
        let r: [(u32, u32, &'static str); 99] = [
            (2160, 1080, "(1:2)"),
            (240, 160, "(3:2)"),
            (360, 240, "(3:2)"),
            (480, 320, "(3:2)"),
            (720, 480, "(3:2)"),
            (960, 640, "(3:2)"),
            (1152, 768, "(3:2)"),
            (1280, 864, "(3:2)"),
            (1440, 960, "(3:2)"),
            (1600, 1024, "(3:2)"),
            (1920, 1280, "(3:2)"),
            (2160, 1440, "(3:2)"),
            (2400, 1600, "(3:2)"),
            (2880, 1920, "(3:2)"),
            (3240, 2160, "(3:2)"),
            (3840, 2560, "(3:2)"),
            (160, 120, "(4:3)"),
            (192, 144, "(4:3)"),
            (320, 240, "(4:3)"),
            (480, 360, "(4:3)"),
            (640, 480, "(4:3)"),
            (768, 576, "(4:3)"),
            (800, 600, "(4:3)"),
            (960, 720, "(4:3)"),
            (1024, 768, "(4:3)"),
            (1152, 864, "(4:3)"),
            (1200, 900, "(4:3)"),
            (1280, 960, "(4:3)"),
            (1400, 1050, "(4:3)"),
            (1440, 1080, "(4:3)"),
            (1600, 1200, "(4:3)"),
            (1920, 1440, "(4:3)"),
            (2048, 1536, "(4:3)"),
            (2560, 1920, "(4:3)"),
            (2880, 2160, "(4:3)"),
            (3200, 2400, "(4:3)"),
            (4096, 3072, "(4:3)"),
            (400, 240, "(5:3)"),
            (800, 480, "(5:3)"),
            (1280, 768, "(5:3)"),
            (400, 240, "(5:3)"),
            (750, 600, "(5:4)"),
            (960, 768, "(5:4)"),
            (1280, 1024, "(5:4)"),
            (1500, 1200, "(5:4)"),
            (2560, 2048, "(5:4)"),
            (3840, 1600, "(12:5)"),
            (256, 144, "(16:9)"),
            (432, 240, "(16:9)"),
            (640, 360, "(16:9)"),
            (854, 480, "(16:9)"),
            (960, 540, "(16:9)"),
            (1024, 576, "(16:9)"),
            (1136, 640, "(16:9)"),
            (1280, 720, "(16:9)"),
            (1366, 768, "(16:9)"),
            (1536, 864, "(16:9)"),
            (1600, 900, "(16:9)"),
            (1920, 1080, "(16:9)"),
            (2048, 1152, "(16:9)"),
            (2560, 1440, "(16:9)"),
            (2880, 1620, "(16:9)"),
            (3200, 1800, "(16:9)"),
            (3840, 2160, "(16:9)"),
            (5120, 2880, "(16:9)"),
            (7680, 4320, "(16:9)"),
            (320, 200, "(16:10)"),
            (384, 240, "(16:10)"),
            (768, 480, "(16:10)"),
            (1024, 640, "(16:10)"),
            (1152, 720, "(16:10)"),
            (1280, 800, "(16:10)"),
            (1440, 900, "(16:10)"),
            (1680, 1050, "(16:10)"),
            (1920, 1200, "(16:10)"),
            (2304, 1440, "(16:10)"),
            (2560, 1600, "(16:10)"),
            (2880, 1800, "(16:10)"),
            (3072, 1920, "(16:10)"),
            (3840, 2400, "(16:10)"),
            (4096, 2560, "(16:10)"),
            (960, 480, "(18:9)"),
            (1440, 720, "(18:9)"),
            (2880, 1440, "(18:9)"),
            (4320, 2160, "(18:9)"),
            (5760, 2880, "(18:9)"),
            (2960, 1440, "(18.5:9)"),
            (3120, 1440, "(19.5:9)"),
            (2560, 1080, "(21:9)"),
            (5120, 2160, "(21:9)"),
            (3200, 2048, "(25:16)"),
            (3840, 1080, "(32:9)"),
            (5120, 1440, "(32:9)"),
            (3840, 1200, "(32:10)"),
            (5760, 1600, "(36:10)"),
            (3440, 1440, "(43:18)"),
            (1024, 600, "(128:75)"),
            (2048, 1080, "(256:135)"),
            (4096, 2160, "(256:135)")
        ];
        assert(r@.map_values(|e: (u32, u32, &'static str)| (e.0, e.1, e.2@)) =~= resolution_table());
        r
    }
}

} // verus!
