//! Classifier-based scene classes and the grouping of classifier labels.
use vstd::prelude::*;

verus! {

/// The scene classes of the stand-alone classifier.
#[derive(Debug, Clone, Copy, PartialEq, Eq, Structural)]
pub enum Scene {
    Night,
    Portrait,
    Landscape,
    Macro,
    Standard,
}

/// The name of each class.
pub open spec fn spec_class_name(s: Scene) -> Seq<char> {
    match s {
        Scene::Night => "night"@,
        Scene::Portrait => "portrait"@,
        Scene::Landscape => "landscape"@,
        Scene::Macro => "macro"@,
        Scene::Standard => "standard"@,
    }
}

impl Scene {
    pub fn as_str(&self) -> (name: &'static str)
        ensures
            name@ == spec_class_name(*self),
    {
        match self {
            Scene::Night => "night",
            Scene::Portrait => "portrait",
            Scene::Landscape => "landscape",
            Scene::Macro => "macro",
            Scene::Standard => "standard",
        }
    }
}

/// What kind of subject an ImageNet label shows.
#[derive(Debug, Clone, Copy, PartialEq, Eq, Structural)]
pub enum LabelGroup {
    /// Person and face labels (0–9, 840, 878, 895).
    Person,
    /// Outdoor and natural scenes (970–980).
    Outdoor,
    /// Close-up and detailed subjects (300–400, 984–987).
    CloseUp,
    /// Everything else.
    Other,
}

/// The group of each label.
pub open spec fn spec_label_group(label: int) -> LabelGroup {
    if (0 <= label <= 9) || label == 840 || label == 878 || label == 895 {
        LabelGroup::Person
    } else if 970 <= label <= 980 {
        LabelGroup::Outdoor
    } else if (300 <= label <= 400) || (984 <= label <= 987) {
        LabelGroup::CloseUp
    } else {
        LabelGroup::Other
    }
}

/// The group that the classifier's label `label` belongs to.
pub fn label_group(label: usize) -> (g: LabelGroup)
    ensures
        g == spec_label_group(label as int),
{
    if label <= 9 || label == 840 || label == 878 || label == 895 {
        LabelGroup::Person
    } else if 970 <= label && label <= 980 {
        LabelGroup::Outdoor
    } else if (300 <= label && label <= 400) || (984 <= label && label <= 987) {
        LabelGroup::CloseUp
    } else {
        LabelGroup::Other
    }
}

/// The class that the classifier's top label selects (once the image was found
/// bright enough not to be a night scene).
pub fn scene_for_top_label(label: usize) -> (s: Scene)
    ensures
        s == match spec_label_group(label as int) {
            LabelGroup::Person => Scene::Portrait,
            LabelGroup::Outdoor => Scene::Landscape,
            LabelGroup::CloseUp => Scene::Macro,
            LabelGroup::Other => Scene::Standard,
        },
{
    match label_group(label) {
        LabelGroup::Person => Scene::Portrait,
        LabelGroup::Outdoor => Scene::Landscape,
        LabelGroup::CloseUp => Scene::Macro,
        LabelGroup::Other => Scene::Standard,
    }
}

} // verus!
