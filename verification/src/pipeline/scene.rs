//! Scene classes and the processing configuration that each one selects.
use vstd::prelude::*;
use vstd::string::*;

use crate::ai::models::scene_cls::{label_group, spec_label_group, LabelGroup};
use crate::compute::color_science::ColorProfile;
use crate::compute::tone_map::{spec_tone_mode_for_name, ToneMappingMode};
use crate::text::same_text;

verus! {

/// The scene classes that route the pipeline.
#[derive(Debug, Clone, Copy, PartialEq, Eq, Structural)]
pub enum Scene {
    Night,
    Portrait,
    Landscape,
    Macro,
    Document,
    Backlit,
    Standard,
}

/// The name of each scene.
pub open spec fn spec_scene_name(s: Scene) -> Seq<char> {
    match s {
        Scene::Night => "night"@,
        Scene::Portrait => "portrait"@,
        Scene::Landscape => "landscape"@,
        Scene::Macro => "macro"@,
        Scene::Document => "document"@,
        Scene::Backlit => "backlit"@,
        Scene::Standard => "standard"@,
    }
}

/// The scene that an already lower-cased hint names; unknown names give `Standard`.
pub open spec fn spec_scene_for_lowered(name: Seq<char>) -> Scene {
    if name == "night"@ {
        Scene::Night
    } else if name == "portrait"@ {
        Scene::Portrait
    } else if name == "landscape"@ {
        Scene::Landscape
    } else if name == "macro"@ {
        Scene::Macro
    } else if name == "document"@ {
        Scene::Document
    } else if name == "backlit"@ {
        Scene::Backlit
    } else {
        Scene::Standard
    }
}

/// A character in the ASCII range.
pub open spec fn is_ascii_char(c: char) -> bool {
    (c as u32) < 128
}

/// ASCII lower-casing of one character: A–Z become a–z, all else stays.
pub open spec fn ascii_lower_char(c: char) -> char {
    if 65 <= (c as u32) <= 90 {
        ((c as u32) + 32) as char
    } else {
        c
    }
}

/// Whether every character of a string is ASCII.
pub open spec fn all_ascii(s: Seq<char>) -> bool {
    forall|i: int| 0 <= i < s.len() ==> is_ascii_char(#[trigger] s[i])
}

/// What `str::to_lowercase` returns on a string that holds a non-ASCII character
/// (Unicode lower-casing, which may change the length).
pub uninterp spec fn unicode_lowercase(s: Seq<char>) -> Seq<char>;

/// What `str::to_lowercase` returns: on an all-ASCII string the ASCII lower-casing
/// of each character, otherwise the Unicode lower-casing named above.
pub open spec fn spec_to_lowercase(s: Seq<char>) -> Seq<char> {
    if all_ascii(s) {
        s.map_values(|c: char| ascii_lower_char(c))
    } else {
        unicode_lowercase(s)
    }
}

/// The scene a free-form hint selects, ignoring case.
pub open spec fn spec_from_hint(hint: Seq<char>) -> Scene {
    spec_scene_for_lowered(spec_to_lowercase(hint))
}

/// Calls `str::to_lowercase`. Claimed: on an all-ASCII string (std's own ASCII fast
/// path) each of A–Z becomes a–z and every other character is kept; on any other
/// string the result is the value named `unicode_lowercase`, which is not described.
#[verifier::external_body]
fn to_lowercase(s: &str) -> (lowered: String)
    ensures
        all_ascii(s@) ==> lowered@ == s@.map_values(|c: char| ascii_lower_char(c)),
        !all_ascii(s@) ==> lowered@ == unicode_lowercase(s@),
{
    s.to_lowercase()
}

/// The processing stages and parameters chosen for a scene.
#[derive(Debug, Clone)]
pub struct PipelineConfig {
    pub run_denoiser: bool,
    pub run_enhancer: bool,
    pub run_super_res: bool,
    pub run_depth: bool,
    pub run_hdr: bool,
    pub burst_count: u8,
    pub tone_mapping: String,
    pub color_profile: ColorProfile,
}

/// The configuration table: which stages run for each scene, with how many
/// burst frames, which tone-mapping name and which colour profile.
pub open spec fn spec_config_for(c: PipelineConfig, s: Scene) -> bool {
    match s {
        Scene::Night => {
            &&& c.run_denoiser && c.run_enhancer && !c.run_super_res && !c.run_depth && !c.run_hdr
            &&& c.burst_count == 7 && c.tone_mapping@ == "aces"@
            &&& c.color_profile == ColorProfile::Natural
        },
        Scene::Portrait => {
            &&& c.run_denoiser && !c.run_enhancer && c.run_super_res && c.run_depth && !c.run_hdr
            &&& c.burst_count == 3 && c.tone_mapping@ == "aces"@
            &&& c.color_profile == ColorProfile::Natural
        },
        Scene::Landscape => {
            &&& !c.run_denoiser && !c.run_enhancer && c.run_super_res && !c.run_depth && c.run_hdr
            &&& c.burst_count == 3 && c.tone_mapping@ == "aces"@
            &&& c.color_profile == ColorProfile::Vivid
        },
        Scene::Macro => {
            &&& c.run_denoiser && !c.run_enhancer && c.run_super_res && !c.run_depth && !c.run_hdr
            &&& c.burst_count == 3 && c.tone_mapping@ == "aces"@
            &&& c.color_profile == ColorProfile::Natural
        },
        Scene::Document => {
            &&& !c.run_denoiser && !c.run_enhancer && c.run_super_res && !c.run_depth && !c.run_hdr
            &&& c.burst_count == 1 && c.tone_mapping@ == "none"@
            &&& c.color_profile == ColorProfile::Natural
        },
        Scene::Backlit => {
            &&& !c.run_denoiser && c.run_enhancer && !c.run_super_res && !c.run_depth && c.run_hdr
            &&& c.burst_count == 3 && c.tone_mapping@ == "aces"@
            &&& c.color_profile == ColorProfile::Cinema
        },
        Scene::Standard => {
            &&& c.run_denoiser && !c.run_enhancer && !c.run_super_res && !c.run_depth && !c.run_hdr
            &&& c.burst_count == 3 && c.tone_mapping@ == "aces"@
            &&& c.color_profile == ColorProfile::Natural
        },
    }
}

/// The fallback colour profile of each scene.
pub open spec fn spec_default_profile(s: Scene) -> ColorProfile {
    match s {
        Scene::Night | Scene::Backlit => ColorProfile::Cinema,
        Scene::Landscape => ColorProfile::Vivid,
        _ => ColorProfile::Natural,
    }
}

/// The scene that a lower-cased name selects.
pub fn scene_for_lowercase_name(name: &str) -> (scene: Scene)
    ensures
        scene == spec_scene_for_lowered(name@),
{
    if same_text(name, "night") {
        Scene::Night
    } else if same_text(name, "portrait") {
        Scene::Portrait
    } else if same_text(name, "landscape") {
        Scene::Landscape
    } else if same_text(name, "macro") {
        Scene::Macro
    } else if same_text(name, "document") {
        Scene::Document
    } else if same_text(name, "backlit") {
        Scene::Backlit
    } else {
        Scene::Standard
    }
}

fn config(
    run_denoiser: bool,
    run_enhancer: bool,
    run_super_res: bool,
    run_depth: bool,
    run_hdr: bool,
    burst_count: u8,
    tone_mapping: &str,
    color_profile: ColorProfile,
) -> (c: PipelineConfig)
    ensures
        c.run_denoiser == run_denoiser,
        c.run_enhancer == run_enhancer,
        c.run_super_res == run_super_res,
        c.run_depth == run_depth,
        c.run_hdr == run_hdr,
        c.burst_count == burst_count,
        c.tone_mapping@ == tone_mapping@,
        c.color_profile == color_profile,
{
    PipelineConfig {
        run_denoiser,
        run_enhancer,
        run_super_res,
        run_depth,
        run_hdr,
        burst_count,
        tone_mapping: String::from_str(tone_mapping),
        color_profile,
    }
}

/// The threshold tests on an image's luma statistics that scene routing reads.
#[derive(Debug, Clone, Copy, PartialEq, Eq, Structural)]
pub struct SceneEvidence {
    /// Mean luma below 0.12.
    pub very_dark: bool,
    /// Mean luma below 0.15.
    pub dark: bool,
    /// Mean luma above 0.4.
    pub bright: bool,
    /// Many pixels both below 0.2 and above 0.8 (a backlit histogram).
    pub bimodal: bool,
    /// Mostly white pixels with strong contrast (a document).
    pub mostly_white: bool,
    /// Contrast ratio above 5.
    pub high_contrast: bool,
    /// Noise estimate above 0.05.
    pub noisy: bool,
    /// Noise estimate above 0.08.
    pub very_noisy: bool,
}

/// The fast path: a clearly night, bright backlit or document image is decided
/// at once; anything else is left to the classifier.
pub open spec fn spec_classify_by_luma(e: SceneEvidence) -> Option<Scene> {
    if e.very_dark {
        Some(Scene::Night)
    } else if e.bimodal && e.bright {
        Some(Scene::Backlit)
    } else if e.mostly_white {
        Some(Scene::Document)
    } else {
        None
    }
}

/// The statistics-only routing used when the classifier is unsure.
pub open spec fn spec_scene_from_stats(e: SceneEvidence) -> Scene {
    if e.dark {
        Scene::Night
    } else if e.bimodal {
        Scene::Backlit
    } else if e.mostly_white {
        Scene::Document
    } else if e.high_contrast {
        Scene::Landscape
    } else if e.noisy {
        Scene::Night
    } else {
        Scene::Standard
    }
}

/// The routing of a confident classifier label: people give portraits (or night
/// scenes when very noisy), outdoor labels landscapes, close-ups macro, and any
/// other label falls back to the statistics.
pub open spec fn spec_scene_from_label(label: int, e: SceneEvidence) -> Scene {
    match spec_label_group(label) {
        LabelGroup::Person => if e.very_noisy {
            Scene::Night
        } else {
            Scene::Portrait
        },
        LabelGroup::Outdoor => Scene::Landscape,
        LabelGroup::CloseUp => Scene::Macro,
        LabelGroup::Other => spec_scene_from_stats(e),
    }
}

pub fn classify_by_luma(e: &SceneEvidence) -> (s: Option<Scene>)
    ensures
        s == spec_classify_by_luma(*e),
{
    if e.very_dark {
        return Some(Scene::Night);
    }
    if e.bimodal && e.bright {
        return Some(Scene::Backlit);
    }
    if e.mostly_white {
        return Some(Scene::Document);
    }
    None
}

pub fn scene_from_stats(e: &SceneEvidence) -> (s: Scene)
    ensures
        s == spec_scene_from_stats(*e),
{
    if e.dark {
        return Scene::Night;
    }
    if e.bimodal {
        return Scene::Backlit;
    }
    if e.mostly_white {
        return Scene::Document;
    }
    if e.high_contrast {
        return Scene::Landscape;
    }
    if e.noisy {
        return Scene::Night;
    }
    Scene::Standard
}

pub fn scene_from_label(label: usize, e: &SceneEvidence) -> (s: Scene)
    ensures
        s == spec_scene_from_label(label as int, *e),
{
    match label_group(label) {
        LabelGroup::Person => if e.very_noisy {
            Scene::Night
        } else {
            Scene::Portrait
        },
        LabelGroup::Outdoor => Scene::Landscape,
        LabelGroup::CloseUp => Scene::Macro,
        LabelGroup::Other => scene_from_stats(e),
    }
}

/// The scene once the classifier has run: an unsure classifier (top confidence
/// under 0.45) defers to the statistics, a sure one to its top label.
pub fn scene_after_classifier(top_label: usize, confident: bool, e: &SceneEvidence) -> (s: Scene)
    ensures
        s == if confident {
            spec_scene_from_label(top_label as int, *e)
        } else {
            spec_scene_from_stats(*e)
        },
{
    if !confident {
        scene_from_stats(e)
    } else {
        scene_from_label(top_label, e)
    }
}

/// Lower-casing a string of lower-case ASCII letters gives it back unchanged.
proof fn lemma_lowercase_of_lower_ascii(s: Seq<char>)
    requires
        forall|i: int| 0 <= i < s.len() ==> 97 <= (#[trigger] s[i] as u32) <= 122,
    ensures
        spec_to_lowercase(s) == s,
{
    assert(all_ascii(s));
    assert(s.map_values(|c: char| ascii_lower_char(c)) =~= s);
}

/// Every scene's name, given back as a hint, selects that scene again.
pub proof fn lemma_hint_of_scene_name(s: Scene)
    ensures
        spec_from_hint(spec_scene_name(s)) == s,
{
    reveal_strlit("night");
    reveal_strlit("portrait");
    reveal_strlit("landscape");
    reveal_strlit("macro");
    reveal_strlit("document");
    reveal_strlit("backlit");
    reveal_strlit("standard");
    let name = spec_scene_name(s);
    assert forall|i: int| 0 <= i < name.len() implies 97 <= (#[trigger] name[i] as u32) <= 122 by {
        match s {
            Scene::Night => {},
            Scene::Portrait => {},
            Scene::Landscape => {},
            Scene::Macro => {},
            Scene::Document => {},
            Scene::Backlit => {},
            Scene::Standard => {},
        }
    }
    lemma_lowercase_of_lower_ascii(name);
    assert("night"@.len() == 5 && "macro"@.len() == 5 && "backlit"@.len() == 7);
    assert("portrait"@.len() == 8 && "document"@.len() == 8 && "standard"@.len() == 8);
    assert("landscape"@.len() == 9);
    assert("night"@[0] != "macro"@[0]);
    assert("portrait"@[0] != "document"@[0] && "portrait"@[0] != "standard"@[0]);
    assert("document"@[0] != "standard"@[0]);
    assert(spec_scene_for_lowered(name) == s);
}

/// Scene hints ignore case: two ASCII hints that differ only in the case of
/// their letters select the same scene.
pub proof fn lemma_hint_case_insensitive(s: Seq<char>, t: Seq<char>)
    requires
        all_ascii(s),
        all_ascii(t),
        s.len() == t.len(),
        forall|i: int| 0 <= i < s.len() ==> ascii_lower_char(#[trigger] s[i]) == ascii_lower_char(t[i]),
    ensures
        spec_from_hint(s) == spec_from_hint(t),
{
    assert(spec_to_lowercase(s) =~= spec_to_lowercase(t));
}

/// An ASCII hint selects the same scene as its lower-cased form.
pub proof fn lemma_hint_of_lowered(s: Seq<char>)
    requires
        all_ascii(s),
    ensures
        spec_from_hint(spec_to_lowercase(s)) == spec_from_hint(s),
{
    let l = spec_to_lowercase(s);
    assert forall|i: int| 0 <= i < l.len() implies is_ascii_char(#[trigger] l[i]) && ascii_lower_char(l[i]) == l[i] by {
        assert(is_ascii_char(s[i]));
    }
    assert(all_ascii(l));
    assert(spec_to_lowercase(l) =~= l);
}

/// Any hint selects the same scene as its lower-cased form, wherever lower-casing
/// the lower-cased form changes nothing more (which holds of every ASCII hint,
/// see `lemma_hint_of_lowered`).
pub proof fn lemma_hint_of_lowered_text(h: Seq<char>)
    requires
        spec_to_lowercase(spec_to_lowercase(h)) == spec_to_lowercase(h),
    ensures
        spec_from_hint(spec_to_lowercase(h)) == spec_from_hint(h),
{
}

/// The luma fast path decides only clear cases: a very dark image is a night
/// scene; a backlit scene needs a two-peaked histogram on a bright image; a
/// document needs a mostly white image; everything else (an ordinary bright
/// photo among them) is left to the classifier.
pub proof fn lemma_fast_path_routing(e: SceneEvidence)
    ensures
        (spec_classify_by_luma(e) == Some(Scene::Night)) <==> e.very_dark,
        (spec_classify_by_luma(e) == Some(Scene::Backlit)) <==> !e.very_dark && e.bimodal && e.bright,
        (spec_classify_by_luma(e) == Some(Scene::Document)) <==> !e.very_dark && !(e.bimodal && e.bright) && e.mostly_white,
        (spec_classify_by_luma(e) is None) <==> !e.very_dark && !(e.bimodal && e.bright) && !e.mostly_white,
        !e.bimodal ==> spec_classify_by_luma(e) != Some(Scene::Backlit),
        !e.bright ==> spec_classify_by_luma(e) != Some(Scene::Backlit),
        spec_classify_by_luma(e) != Some(Scene::Portrait) && spec_classify_by_luma(e) != Some(Scene::Landscape)
            && spec_classify_by_luma(e) != Some(Scene::Macro) && spec_classify_by_luma(e) != Some(Scene::Standard),
{
}

/// The statistics-only routing: dark images are night scenes, then a two-peaked
/// histogram gives backlit, mostly white gives a document, strong contrast a
/// landscape, noise a night scene, and a quiet image is standard. It never
/// names a portrait or a macro scene.
pub proof fn lemma_stats_routing(e: SceneEvidence)
    ensures
        (spec_scene_from_stats(e) == Scene::Night) <==> e.dark || (!e.bimodal && !e.mostly_white && !e.high_contrast
            && e.noisy),
        (spec_scene_from_stats(e) == Scene::Backlit) <==> !e.dark && e.bimodal,
        (spec_scene_from_stats(e) == Scene::Document) <==> !e.dark && !e.bimodal && e.mostly_white,
        (spec_scene_from_stats(e) == Scene::Landscape) <==> !e.dark && !e.bimodal && !e.mostly_white
            && e.high_contrast,
        (spec_scene_from_stats(e) == Scene::Standard) <==> !e.dark && !e.bimodal && !e.mostly_white
            && !e.high_contrast && !e.noisy,
        spec_scene_from_stats(e) != Scene::Portrait && spec_scene_from_stats(e) != Scene::Macro,
{
}

/// The routing of a confident classifier: labels 0–9, 840, 878 and 895 (people)
/// give a portrait, or a night scene when the image is very noisy; labels
/// 970–980 (outdoor) a landscape; labels 300–400 and 984–987 (close-ups) a macro
/// scene; any other label falls back to the statistics. An unsure classifier
/// always defers to the statistics.
pub proof fn lemma_label_routing(label: int, e: SceneEvidence, confident: bool)
    ensures
        ((0 <= label <= 9) || label == 840 || label == 878 || label == 895) ==> spec_scene_from_label(label, e) == (
        if e.very_noisy {
            Scene::Night
        } else {
            Scene::Portrait
        }),
        970 <= label <= 980 ==> spec_scene_from_label(label, e) == Scene::Landscape,
        (300 <= label <= 400 || 984 <= label <= 987) ==> spec_scene_from_label(label, e) == Scene::Macro,
        !((0 <= label <= 9) || label == 840 || label == 878 || label == 895 || (970 <= label <= 980) || (300 <= label
            <= 400) || (984 <= label <= 987)) ==> spec_scene_from_label(label, e) == spec_scene_from_stats(e),
{
}

/// The configuration table, column by column: which scenes run each stage, how
/// many frames they take, which tone mapping and which colour profile.
pub proof fn lemma_config_columns(c: PipelineConfig, s: Scene)
    requires
        spec_config_for(c, s),
    ensures
        c.run_denoiser <==> (s == Scene::Night || s == Scene::Portrait || s == Scene::Macro || s == Scene::Standard),
        c.run_enhancer <==> (s == Scene::Night || s == Scene::Backlit),
        c.run_super_res <==> (s == Scene::Portrait || s == Scene::Landscape || s == Scene::Macro || s == Scene::Document),
        c.run_depth <==> s == Scene::Portrait,
        c.run_hdr <==> (s == Scene::Landscape || s == Scene::Backlit),
        c.burst_count == (if s == Scene::Night {
            7u8
        } else if s == Scene::Document {
            1u8
        } else {
            3u8
        }),
        c.tone_mapping@ == (if s == Scene::Document {
            "none"@
        } else {
            "aces"@
        }),
        c.color_profile == (if s == Scene::Landscape {
            ColorProfile::Vivid
        } else if s == Scene::Backlit {
            ColorProfile::Cinema
        } else {
            ColorProfile::Natural
        }),
{
}

/// Each scene's configuration selects its tone-mapping operator: documents are
/// only clamped, every other scene is ACES-mapped.
pub proof fn lemma_config_tone_modes(c: PipelineConfig, s: Scene)
    requires
        spec_config_for(c, s),
    ensures
        spec_tone_mode_for_name(c.tone_mapping@) == if s == Scene::Document {
            ToneMappingMode::Passthrough
        } else {
            ToneMappingMode::AcesFilmic
        },
{
    reveal_strlit("aces");
    reveal_strlit("none");
    reveal_strlit("reinhard");
    assert("aces"@.len() == 4 && "reinhard"@.len() == 8 && "none"@.len() == 4);
    assert("aces"@[0] != "none"@[0]);
}

/// The fallback colour profile of the scenes: night and backlit scenes take the
/// cinema profile, landscapes the vivid one, all others the natural one.
pub proof fn lemma_default_profiles(s: Scene)
    ensures
        (spec_default_profile(s) == ColorProfile::Cinema) <==> (s == Scene::Night || s == Scene::Backlit),
        (spec_default_profile(s) == ColorProfile::Vivid) <==> s == Scene::Landscape,
        (spec_default_profile(s) == ColorProfile::Natural) <==> !(s == Scene::Night || s == Scene::Backlit
            || s == Scene::Landscape),
{
}

/// Every scene's configuration is usable: between one and seven burst frames
/// and a tone-mapping name that is not empty.
pub proof fn lemma_pipeline_configs_are_valid(c: PipelineConfig, s: Scene)
    requires
        spec_config_for(c, s),
    ensures
        1 <= c.burst_count <= 7,
        c.tone_mapping@.len() > 0,
{
    reveal_strlit("aces");
    reveal_strlit("none");
}

impl Scene {
    pub fn as_str(&self) -> (name: &'static str)
        ensures
            name@ == spec_scene_name(*self),
    {
        match self {
            Scene::Night => "night",
            Scene::Portrait => "portrait",
            Scene::Landscape => "landscape",
            Scene::Macro => "macro",
            Scene::Document => "document",
            Scene::Backlit => "backlit",
            Scene::Standard => "standard",
        }
    }

    /// The scene named by `hint`, compared without regard to case.
    pub fn from_hint(hint: &str) -> (scene: Scene)
        ensures
            scene == spec_from_hint(hint@),
    {
        let lowered = to_lowercase(hint);
        scene_for_lowercase_name(lowered.as_str())
    }

    pub fn pipeline_config(&self) -> (c: PipelineConfig)
        ensures
            spec_config_for(c, *self),
    {
        match self {
            Scene::Night => config(true, true, false, false, false, 7, "aces", ColorProfile::Natural),
            Scene::Portrait => config(true, false, true, true, false, 3, "aces", ColorProfile::Natural),
            Scene::Landscape => config(false, false, true, false, true, 3, "aces", ColorProfile::Vivid),
            Scene::Macro => config(true, false, true, false, false, 3, "aces", ColorProfile::Natural),
            Scene::Document => config(false, false, true, false, false, 1, "none", ColorProfile::Natural),
            Scene::Backlit => config(false, true, false, false, true, 3, "aces", ColorProfile::Cinema),
            Scene::Standard => config(true, false, false, false, false, 3, "aces", ColorProfile::Natural),
        }
    }

    pub fn default_profile(&self) -> (p: ColorProfile)
        ensures
            p == spec_default_profile(*self),
    {
        match self {
            Scene::Night | Scene::Backlit => ColorProfile::Cinema,
            Scene::Landscape => ColorProfile::Vivid,
            _ => ColorProfile::Natural,
        }
    }
}

} // verus!
