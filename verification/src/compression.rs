//! The result of compressing a session into an archive entry during sleep:
//! its shape, its checks and the neutral text assembled from the passes'
//! tracks when no consolidated text is available.
use vstd::prelude::*;
use crate::text::{join, join_strings, strs, trim_seq, trim_str, is_blank, char_count};
use crate::types::{F64Bits, Link, Quote, TopicThreadItem};
use crate::error::MemoryEngineError;

verus! {

/// A fact with the confidence it is held with.
#[derive(Debug, Clone, PartialEq)]
pub struct WeightedFact {
    pub text: String,
    pub confidence: F64Bits,
    pub source_event_ids: Vec<String>,
}

/// A moment the emotional pass found notable.
#[derive(Debug, Clone, PartialEq)]
pub struct EmotionalMarker {
    pub target: String,
    pub affect: String,
    pub strength: F64Bits,
    pub source_event_ids: Vec<String>,
    pub quote: Option<String>,
    pub evidence: Option<String>,
}

/// Something the personal-signal pass learned about the user.
#[derive(Debug, Clone, PartialEq)]
pub struct PersonalSignal {
    pub text: String,
    pub category: String,
    pub confidence: F64Bits,
    pub source_event_ids: Vec<String>,
    pub evidence: Option<String>,
}

/// The tone of the relationship as the relational pass saw it.
#[derive(Debug, Clone, PartialEq)]
pub struct RelationalTone {
    pub warmth: Option<F64Bits>,
    pub intellectual_engagement: Option<F64Bits>,
    pub intimacy: Option<F64Bits>,
    pub trust: Option<F64Bits>,
    pub playfulness: Option<F64Bits>,
    pub tension: Option<F64Bits>,
    pub summary: Option<String>,
    pub source_event_ids: Vec<String>,
}

/// What a sleep pass makes of a session's events.
#[derive(Debug, Clone, PartialEq)]
pub struct SleepCompressionResult {
    pub schema_version: String,
    pub archive_id: String,
    pub gist: String,
    pub narrative: String,
    pub compact_memory: Option<String>,
    pub facts: Vec<WeightedFact>,
    pub quotes: Vec<Quote>,
    pub tags: Vec<String>,
    pub theme: Option<String>,
    pub weight: F64Bits,
    pub links: Vec<Link>,
    pub emotional_markers: Vec<EmotionalMarker>,
    pub topic_thread: Vec<TopicThreadItem>,
    pub personal_signals: Vec<PersonalSignal>,
    pub relational_tone: Option<RelationalTone>,
}

// ---------------------------------------------------------------- unit interval

/// Bit pattern of the double `1.0`.
pub open spec fn one_bits() -> u64 {
    0x3FF0_0000_0000_0000
}

/// Bit pattern of the double `-0.0`.
pub open spec fn negative_zero_bits() -> u64 {
    0x8000_0000_0000_0000
}

/// `0.0 <= x && x <= 1.0` for the double with these bits. Non-negative
/// doubles are ordered as their bit patterns, from `+0.0` (all zero) to
/// `1.0`; among the others only `-0.0`, equal to `0.0`, lies in the
/// interval; NaN lies in none.
pub open spec fn in_unit_interval(x: F64Bits) -> bool {
    x.bits <= one_bits() || x.bits == negative_zero_bits()
}

fn unit_interval(x: F64Bits) -> (r: bool)
    ensures
        r == in_unit_interval(x),
{
    x.bits <= 0x3FF0_0000_0000_0000 || x.bits == 0x8000_0000_0000_0000
}

/// Every value of the relational tone that is present lies in `[0, 1]`.
pub open spec fn tone_in_range(tone: RelationalTone) -> bool {
    &&& (tone.warmth matches Some(v) ==> in_unit_interval(v))
    &&& (tone.intellectual_engagement matches Some(v) ==> in_unit_interval(v))
    &&& (tone.intimacy matches Some(v) ==> in_unit_interval(v))
    &&& (tone.trust matches Some(v) ==> in_unit_interval(v))
    &&& (tone.playfulness matches Some(v) ==> in_unit_interval(v))
    &&& (tone.tension matches Some(v) ==> in_unit_interval(v))
}

fn optional_in_range(v: Option<F64Bits>) -> (r: bool)
    ensures
        r == (v matches Some(x) ==> in_unit_interval(x)),
{
    match v {
        Some(x) => unit_interval(x),
        None => true,
    }
}

/// The first problem of a compression result, if any, in the order the
/// checks run.
pub open spec fn compression_problem(r: SleepCompressionResult) -> Option<Seq<char>> {
    if trim_seq(r.gist@).len() == 0 {
        Some("sleep compression gist must not be empty"@)
    } else if trim_seq(r.narrative@).len() == 0 {
        Some("sleep compression narrative must not be empty"@)
    } else if r.compact_memory matches Some(c) && trim_seq(c@).len() == 0 {
        Some("sleep compression compact_memory must not be empty when provided"@)
    } else if !in_unit_interval(r.weight) {
        Some("sleep compression weight must be between 0.0 and 1.0"@)
    } else if exists|i: int|
        0 <= i < r.emotional_markers@.len() && !in_unit_interval(
            #[trigger] r.emotional_markers@[i].strength,
        ) {
        Some("emotional marker strength must be between 0.0 and 1.0"@)
    } else if exists|i: int|
        0 <= i < r.personal_signals@.len() && !in_unit_interval(
            #[trigger] r.personal_signals@[i].confidence,
        ) {
        Some("personal signal confidence must be between 0.0 and 1.0"@)
    } else if r.relational_tone matches Some(t) && !tone_in_range(t) {
        Some("relational tone values must be between 0.0 and 1.0"@)
    } else {
        None
    }
}

impl SleepCompressionResult {
    /// Checks a compression result: non-blank gist and narrative, a
    /// compact memory with text when present, and weight, strengths,
    /// confidences and tone values within `[0, 1]`.
    pub fn validate_basic(&self) -> (r: Result<(), MemoryEngineError>)
        ensures
            compression_problem(*self) is None ==> r is Ok,
            compression_problem(*self) is Some ==> (r matches Err(MemoryEngineError::Validation(m))
                && m@ == compression_problem(*self).unwrap()),
    {
        if is_blank(self.gist.as_str()) {
            return Err(
                MemoryEngineError::Validation("sleep compression gist must not be empty".to_string()),
            );
        }
        if is_blank(self.narrative.as_str()) {
            return Err(
                MemoryEngineError::Validation(
                    "sleep compression narrative must not be empty".to_string(),
                ),
            );
        }
        match &self.compact_memory {
            Some(c) => {
                if is_blank(c.as_str()) {
                    return Err(
                        MemoryEngineError::Validation(
                            "sleep compression compact_memory must not be empty when provided".to_string(),
                        ),
                    );
                }
            },
            None => {},
        }
        if !unit_interval(self.weight) {
            return Err(
                MemoryEngineError::Validation(
                    "sleep compression weight must be between 0.0 and 1.0".to_string(),
                ),
            );
        }
        let mut i: usize = 0;
        while i < self.emotional_markers.len()
            invariant
                trim_seq(self.gist@).len() > 0,
                trim_seq(self.narrative@).len() > 0,
                !(self.compact_memory matches Some(c) && trim_seq(c@).len() == 0),
                in_unit_interval(self.weight),
                i <= self.emotional_markers@.len(),
                forall|k: int| 0 <= k < i ==> in_unit_interval(#[trigger] self.emotional_markers@[k].strength),
            decreases self.emotional_markers@.len() - i,
        {
            if !unit_interval(self.emotional_markers[i].strength) {
                assert(!in_unit_interval(self.emotional_markers@[i as int].strength));
                return Err(
                    MemoryEngineError::Validation(
                        "emotional marker strength must be between 0.0 and 1.0".to_string(),
                    ),
                );
            }
            i = i + 1;
        }
        let mut j: usize = 0;
        while j < self.personal_signals.len()
            invariant
                trim_seq(self.gist@).len() > 0,
                trim_seq(self.narrative@).len() > 0,
                !(self.compact_memory matches Some(c) && trim_seq(c@).len() == 0),
                in_unit_interval(self.weight),
                forall|k: int|
                    0 <= k < self.emotional_markers@.len() ==> in_unit_interval(
                        #[trigger] self.emotional_markers@[k].strength,
                    ),
                j <= self.personal_signals@.len(),
                forall|k: int| 0 <= k < j ==> in_unit_interval(#[trigger] self.personal_signals@[k].confidence),
            decreases self.personal_signals@.len() - j,
        {
            if !unit_interval(self.personal_signals[j].confidence) {
                assert(!in_unit_interval(self.personal_signals@[j as int].confidence));
                return Err(
                    MemoryEngineError::Validation(
                        "personal signal confidence must be between 0.0 and 1.0".to_string(),
                    ),
                );
            }
            j = j + 1;
        }
        match &self.relational_tone {
            Some(t) => {
                if !(optional_in_range(t.warmth) && optional_in_range(t.intellectual_engagement)
                    && optional_in_range(t.intimacy) && optional_in_range(t.trust)
                    && optional_in_range(t.playfulness) && optional_in_range(t.tension)) {
                    return Err(
                        MemoryEngineError::Validation(
                            "relational tone values must be between 0.0 and 1.0".to_string(),
                        ),
                    );
                }
            },
            None => {},
        }
        Ok(())
    }
}

// ---------------------------------------------------------------- fallback text

/// What a topic shows in the neutral narrative: its summary when that has
/// text, its name otherwise.
pub open spec fn topic_label(t: TopicThreadItem) -> Seq<char> {
    match t.summary {
        Some(s) => if trim_seq(s@).len() > 0 {
            s@
        } else {
            t.topic@
        },
        None => t.topic@,
    }
}

/// `target (affect)` of an emotional marker.
pub open spec fn marker_label(m: EmotionalMarker) -> Seq<char> {
    m.target@ + " ("@ + m.affect@ + ")"@
}

/// The first `n` items, or all of them.
pub open spec fn first_n<T>(s: Seq<T>, n: nat) -> Seq<T> {
    if s.len() <= n {
        s
    } else {
        s.take(n as int)
    }
}

/// The narrative written from the tracks: up to three personal signals,
/// up to three emotional moments and up to four topics, each group as one
/// sentence; a fixed sentence when every track is empty.
pub open spec fn neutral_narrative(
    markers: Seq<EmotionalMarker>,
    topics: Seq<TopicThreadItem>,
    signals: Seq<PersonalSignal>,
) -> Seq<char> {
    let parts = (if signals.len() > 0 {
        seq![
            "Особисті сигнали: "@ + join(
                first_n(signals, 3).map_values(|s: PersonalSignal| s.text@),
                "; "@,
            ) + "."@,
        ]
    } else {
        Seq::empty()
    }) + (if markers.len() > 0 {
        seq![
            "Емоційно помітні моменти: "@ + join(
                first_n(markers, 3).map_values(|m: EmotionalMarker| marker_label(m)),
                "; "@,
            ) + "."@,
        ]
    } else {
        Seq::empty()
    }) + (if topics.len() > 0 {
        seq![
            "Теми розмови: "@ + join(
                first_n(topics, 4).map_values(|t: TopicThreadItem| topic_label(t)),
                "; "@,
            ) + "."@,
        ]
    } else {
        Seq::empty()
    });
    if parts.len() == 0 {
        "Сесія була стиснута у структуровані треки, але без виразних довготривалих сигналів."@
    } else {
        join(parts, " "@)
    }
}

fn sentence(head: &str, items: &Vec<String>) -> (r: String)
    ensures
        r@ == head@ + join(strs(items@), "; "@) + "."@,
{
    let mut s = String::new();
    s.append(head);
    let body = join_strings(items, "; ");
    s.append(body.as_str());
    s.append(".");
    s
}

/// The neutral narrative of a run whose consolidator gave no text.
pub fn neutral_narrative_from_tracks(
    emotional_markers: &Vec<EmotionalMarker>,
    topic_thread: &Vec<TopicThreadItem>,
    personal_signals: &Vec<PersonalSignal>,
) -> (r: String)
    ensures
        r@ == neutral_narrative(emotional_markers@, topic_thread@, personal_signals@),
{
    let mut parts: Vec<String> = Vec::new();
    if personal_signals.len() > 0 {
        let mut texts: Vec<String> = Vec::new();
        let n = if personal_signals.len() < 3 { personal_signals.len() } else { 3 };
        let mut i: usize = 0;
        while i < n
            invariant
                i <= n <= personal_signals@.len(),
                n == first_n(personal_signals@, 3).len(),
                strs(texts@) =~= first_n(personal_signals@, 3).take(i as int).map_values(
                    |s: PersonalSignal| s.text@,
                ),
            decreases n - i,
        {
            let ghost prev = texts@;
            let t = personal_signals[i].text.clone();
            texts.push(t);
            assert(strs(texts@) =~= strs(prev).push(personal_signals@[i as int].text@));
            assert(first_n(personal_signals@, 3)[i as int] == personal_signals@[i as int]);
            assert(first_n(personal_signals@, 3).take(i + 1) =~= first_n(personal_signals@, 3).take(
                i as int,
            ).push(personal_signals@[i as int]));
            i = i + 1;
        }
        assert(first_n(personal_signals@, 3).take(n as int) =~= first_n(personal_signals@, 3));
        let part = sentence("Особисті сигнали: ", &texts);
        parts.push(part);
    }
    let ghost p1 = strs(parts@);
    if emotional_markers.len() > 0 {
        let mut labels: Vec<String> = Vec::new();
        let n = if emotional_markers.len() < 3 { emotional_markers.len() } else { 3 };
        let mut i: usize = 0;
        while i < n
            invariant
                i <= n <= emotional_markers@.len(),
                n == first_n(emotional_markers@, 3).len(),
                strs(labels@) =~= first_n(emotional_markers@, 3).take(i as int).map_values(
                    |m: EmotionalMarker| marker_label(m),
                ),
            decreases n - i,
        {
            let m = &emotional_markers[i];
            let mut label = String::new();
            label.append(m.target.as_str());
            label.append(" (");
            label.append(m.affect.as_str());
            label.append(")");
            let ghost prev = labels@;
            let ghost lv = label@;
            labels.push(label);
            assert(strs(labels@) =~= strs(prev).push(lv));
            assert(first_n(emotional_markers@, 3)[i as int] == emotional_markers@[i as int]);
            assert(first_n(emotional_markers@, 3).take(i + 1) =~= first_n(emotional_markers@, 3).take(
                i as int,
            ).push(emotional_markers@[i as int]));
            i = i + 1;
        }
        assert(first_n(emotional_markers@, 3).take(n as int) =~= first_n(emotional_markers@, 3));
        let part = sentence("Емоційно помітні моменти: ", &labels);
        parts.push(part);
    }
    let ghost p2 = strs(parts@);
    if topic_thread.len() > 0 {
        let mut labels: Vec<String> = Vec::new();
        let n = if topic_thread.len() < 4 { topic_thread.len() } else { 4 };
        let mut i: usize = 0;
        while i < n
            invariant
                i <= n <= topic_thread@.len(),
                n == first_n(topic_thread@, 4).len(),
                strs(labels@) =~= first_n(topic_thread@, 4).take(i as int).map_values(
                    |t: TopicThreadItem| topic_label(t),
                ),
            decreases n - i,
        {
            let t = &topic_thread[i];
            let label = match &t.summary {
                Some(s) => if is_blank(s.as_str()) {
                    t.topic.clone()
                } else {
                    s.clone()
                },
                None => t.topic.clone(),
            };
            let ghost prev = labels@;
            let ghost lv = label@;
            labels.push(label);
            assert(strs(labels@) =~= strs(prev).push(lv));
            assert(first_n(topic_thread@, 4)[i as int] == topic_thread@[i as int]);
            assert(first_n(topic_thread@, 4).take(i + 1) =~= first_n(topic_thread@, 4).take(
                i as int,
            ).push(topic_thread@[i as int]));
            i = i + 1;
        }
        assert(first_n(topic_thread@, 4).take(n as int) =~= first_n(topic_thread@, 4));
        let part = sentence("Теми розмови: ", &labels);
        parts.push(part);
    }
    assert(strs(parts@) =~= (if personal_signals@.len() > 0 {
        seq![
            "Особисті сигнали: "@ + join(
                first_n(personal_signals@, 3).map_values(|s: PersonalSignal| s.text@),
                "; "@,
            ) + "."@,
        ]
    } else {
        Seq::empty()
    }) + (if emotional_markers@.len() > 0 {
        seq![
            "Емоційно помітні моменти: "@ + join(
                first_n(emotional_markers@, 3).map_values(|m: EmotionalMarker| marker_label(m)),
                "; "@,
            ) + "."@,
        ]
    } else {
        Seq::empty()
    }) + (if topic_thread@.len() > 0 {
        seq![
            "Теми розмови: "@ + join(
                first_n(topic_thread@, 4).map_values(|t: TopicThreadItem| topic_label(t)),
                "; "@,
            ) + "."@,
        ]
    } else {
        Seq::empty()
    }));
    if parts.len() == 0 {
        "Сесія була стиснута у структуровані треки, але без виразних довготривалих сигналів.".to_string()
    } else {
        join_strings(&parts, " ")
    }
}

/// The gist and theme of a result assembled from tracks: the first
/// personal signal's text; else the first topic's summary (or its name)
/// with the topic as theme; else the first emotional moment as
/// `target: affect`; else a fixed sentence.
pub open spec fn fallback_gist(
    markers: Seq<EmotionalMarker>,
    topics: Seq<TopicThreadItem>,
    signals: Seq<PersonalSignal>,
) -> (Seq<char>, Option<Seq<char>>) {
    if signals.len() > 0 {
        (signals[0].text@, None)
    } else if topics.len() > 0 {
        (
            match topics[0].summary {
                Some(s) => s@,
                None => topics[0].topic@,
            },
            Some(topics[0].topic@),
        )
    } else if markers.len() > 0 {
        (markers[0].target@ + ": "@ + markers[0].affect@, None)
    } else {
        ("Сесія збережена як набір важливих спогадів."@, None)
    }
}

/// The gist and theme chosen for a result assembled from tracks.
pub fn fallback_gist_and_theme(
    emotional_markers: &Vec<EmotionalMarker>,
    topic_thread: &Vec<TopicThreadItem>,
    personal_signals: &Vec<PersonalSignal>,
) -> (r: (String, Option<String>))
    ensures
        r.0@ == fallback_gist(emotional_markers@, topic_thread@, personal_signals@).0,
        crate::text::opt_view(r.1) == fallback_gist(emotional_markers@, topic_thread@, personal_signals@).1,
{
    if personal_signals.len() > 0 {
        (personal_signals[0].text.clone(), None)
    } else if topic_thread.len() > 0 {
        let t = &topic_thread[0];
        let gist = match &t.summary {
            Some(s) => s.clone(),
            None => t.topic.clone(),
        };
        (gist, Some(t.topic.clone()))
    } else if emotional_markers.len() > 0 {
        let m = &emotional_markers[0];
        let mut g = String::new();
        g.append(m.target.as_str());
        g.append(": ");
        g.append(m.affect.as_str());
        (g, None)
    } else {
        ("Сесія збережена як набір важливих спогадів.".to_string(), None)
    }
}

/// A consolidated text replaces the current one when it has text; it is
/// then taken trimmed.
pub open spec fn overlaid(current: Seq<char>, candidate: Option<Seq<char>>) -> Seq<char> {
    match candidate {
        Some(c) => if trim_seq(c).len() > 0 {
            trim_seq(c)
        } else {
            current
        },
        None => current,
    }
}

/// The consolidator's gist or narrative over the one assembled from tracks.
pub fn overlay_consolidated_text(current: String, candidate: &Option<String>) -> (r: String)
    ensures
        r@ == overlaid(current@, crate::text::opt_view(*candidate)),
{
    match candidate {
        Some(c) => {
            let t = trim_str(c.as_str());
            if char_count(t.as_str()) > 0 {
                t
            } else {
                current
            }
        },
        None => current,
    }
}

} // verus!
