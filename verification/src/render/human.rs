//! Human-readable streaming renderer: one log line per visible event.

use vstd::prelude::*;

use crate::ansi::{paint, painted, Hue};
use crate::dev::logmux::{hue_of, palette, slug_color, slug_hash, SlugColor};
use crate::idmap::IdMap;
use crate::render::BuildEvent;
use crate::text::{decimal, push_decimal, push_i64, push_str, signed_decimal, string_of};

verus! {

/// The colour a step key is painted in: the same stable hash palette as
/// deployment slugs.
pub open spec fn key_hue(key: Seq<char>) -> Hue {
    hue_of(palette(slug_hash(vstd::utf8::encode_utf8(key)) as int % 6))
}

/// Colour for a step key.
pub fn key_color(key: &str) -> (h: Hue)
    ensures
        h == key_hue(key@),
{
    match slug_color(key) {
        SlugColor::Cyan => Hue::Cyan,
        SlugColor::Magenta => Hue::Magenta,
        SlugColor::Yellow => Hue::Yellow,
        SlugColor::Green => Hue::Green,
        SlugColor::Blue => Hue::Blue,
        SlugColor::BrightRed => Hue::BrightRed,
    }
}

/// `[key]`, the key painted in its colour when `color`.
pub open spec fn key_text(key: Seq<char>, color: bool) -> Seq<char> {
    "["@ + (if color { painted(key, key_hue(key)) } else { key }) + "]"@
}

/// The bracketed step key.
pub fn fmt_key(key: &str, color: bool) -> (s: String)
    ensures
        s@ == key_text(key@, color),
{
    let mut out: Vec<char> = Vec::new();
    push_str(&mut out, "[");
    if color {
        let p = paint(key, key_color(key));
        push_str(&mut out, p.as_str());
    } else {
        push_str(&mut out, key);
    }
    push_str(&mut out, "]");
    string_of(&out)
}

/// The key a step was queued under, or `?`.
pub open spec fn key_of(keys: Map<u128, String>, id: u128) -> Seq<char> {
    if keys.contains_key(id) {
        keys[id]@
    } else {
        "?"@
    }
}

/// The text the human renderer writes for `ev`, given the keys of the
/// steps queued so far (empty when the event shows nothing).
pub open spec fn human_text(keys: Map<u128, String>, color: bool, ev: BuildEvent) -> Seq<char> {
    match ev {
        BuildEvent::BuildStart { step_count, chain_count } => "build: "@ + decimal(step_count as nat) + " steps in "@
            + decimal(chain_count as nat) + " chain(s)\n"@,
        BuildEvent::StepQueued { .. } => Seq::empty(),
        BuildEvent::StepStart { step_id, runner, image } => key_text(key_of(keys, step_id), color) + match image {
            None => " start (runner="@ + runner@ + ")\n"@,
            Some(img) => " start (runner="@ + runner@ + " image="@ + img@ + ")\n"@,
        },
        BuildEvent::StepLog { step_id, line } => key_text(key_of(keys, step_id), color) + " "@ + line@ + "\n"@,
        BuildEvent::StepCacheHit { step_id, tag } => key_text(key_of(keys, step_id), color) + " cache hit ("@ + tag@
            + ")\n"@,
        BuildEvent::StepEnd { step_id, exit_code, duration_ms } => key_text(key_of(keys, step_id), color)
            + " end exit="@ + signed_decimal(exit_code as int) + " duration="@ + decimal(duration_ms as nat)
            + "ms\n"@,
        BuildEvent::BuildEnd { exit_code, duration_ms } => "build: end exit="@ + signed_decimal(exit_code as int)
            + " duration="@ + decimal(duration_ms as nat) + "ms\n"@,
        BuildEvent::BuildAccepted { number, watch_url } => match watch_url {
            None => Seq::empty(),
            Some(url) => "build "@ + match number {
                Some(n) => "#"@ + decimal(n as nat) + " "@,
                None => Seq::empty(),
            } + "\u{2192} "@ + url@ + "\n"@,
        },
        BuildEvent::ChainFailed { chain_idx, failed_step_key, exit_code, message } => "chain "@ + decimal(
            chain_idx as nat,
        ) + ": FAILED at step '"@ + (if color {
            painted(failed_step_key@, key_hue(failed_step_key@))
        } else {
            failed_step_key@
        }) + "' (exit="@ + signed_decimal(exit_code as int) + "): "@ + message@ + "\n"@,
    }
}

/// A chain failure is reported with its message verbatim: the line ends
/// with `: `, the message and a newline, and (uncoloured) it names the
/// chain, the failed step's key and the exit code before that. A log line
/// is written verbatim after the step's key and a space.
pub proof fn lemma_human_keeps_payloads(keys: Map<u128, String>, color: bool, ev: BuildEvent)
    ensures
        ev matches BuildEvent::ChainFailed { chain_idx, failed_step_key, exit_code, message } ==> {
            let t = human_text(keys, color, ev);
            &&& exists|p: Seq<char>| t == p + ": "@ + message@ + "\n"@
            &&& !color ==> exists|q: Seq<char>|
                t == "chain "@ + decimal(chain_idx as nat) + ": FAILED at step '"@ + failed_step_key@ + "' (exit="@
                    + signed_decimal(exit_code as int) + q
        },
        ev matches BuildEvent::StepLog { step_id, line } ==> exists|p: Seq<char>|
            human_text(keys, color, ev) == p + " "@ + line@ + "\n"@,
{
    match ev {
        BuildEvent::ChainFailed { chain_idx, failed_step_key, exit_code, message } => {
            let k = if color {
                painted(failed_step_key@, key_hue(failed_step_key@))
            } else {
                failed_step_key@
            };
            let head = "chain "@ + decimal(chain_idx as nat) + ": FAILED at step '"@ + k + "' (exit="@
                + signed_decimal(exit_code as int);
            let t = human_text(keys, color, ev);
            reveal_strlit("): ");
            reveal_strlit(")");
            reveal_strlit(": ");
            assert("): "@ =~= ")"@ + ": "@);
            assert(t =~= head + "): "@ + message@ + "\n"@);
            assert(t =~= (head + ")"@) + ": "@ + message@ + "\n"@);
            if !color {
                assert(t =~= "chain "@ + decimal(chain_idx as nat) + ": FAILED at step '"@ + failed_step_key@
                    + "' (exit="@ + signed_decimal(exit_code as int) + ("): "@ + message@ + "\n"@));
            }
        },
        BuildEvent::StepLog { step_id, line } => {
            let t = human_text(keys, color, ev);
            assert(t =~= key_text(key_of(keys, step_id), color) + " "@ + line@ + "\n"@);
        },
        _ => {},
    }
}

/// Renders build events as human-readable log lines.
#[derive(Debug)]
pub struct HumanRenderer {
    step_keys: IdMap<String>,
    color: bool,
}

impl HumanRenderer {
    /// The key each queued step was given.
    pub closed spec fn keys(&self) -> Map<u128, String> {
        self.step_keys.as_map()
    }

    /// Whether keys are painted.
    pub closed spec fn colored(&self) -> bool {
        self.color
    }

    /// Create a new renderer; `color` paints step keys.
    pub fn new(color: bool) -> (r: Self)
        ensures
            r.keys() == Map::<u128, String>::empty(),
            r.colored() == color,
    {
        HumanRenderer { step_keys: IdMap::new(), color }
    }

    /// The key of a step, falling back to `?`.
    fn step_key(&self, id: u128) -> (s: String)
        ensures
            s@ == key_of(self.keys(), id),
    {
        match self.step_keys.get(id) {
            Some(k) => k.clone(),
            None => "?".to_owned(),
        }
    }

    /// Handles one event: records the key of a queued step, and returns
    /// the text to write (empty when the event shows nothing).
    pub fn on_event(&mut self, event: &BuildEvent) -> (s: String)
        ensures
            s@ == human_text(old(self).keys(), old(self).colored(), *event),
            final(self).colored() == old(self).colored(),
            final(self).keys() == match *event {
                BuildEvent::StepQueued { step_id, key, .. } => old(self).keys().insert(step_id, key),
                _ => old(self).keys(),
            },
    {
        let mut out: Vec<char> = Vec::new();
        match event {
            BuildEvent::BuildStart { step_count, chain_count } => {
                push_str(&mut out, "build: ");
                push_decimal(&mut out, *step_count);
                push_str(&mut out, " steps in ");
                push_decimal(&mut out, *chain_count);
                push_str(&mut out, " chain(s)\n");
            },
            BuildEvent::StepQueued { step_id, key, .. } => {
                self.step_keys.insert(*step_id, key.clone());
                proof {
                    assert(out@ =~= Seq::<char>::empty());
                }
            },
            BuildEvent::StepStart { step_id, runner, image } => {
                let k = self.step_key(*step_id);
                let p = fmt_key(k.as_str(), self.color);
                push_str(&mut out, p.as_str());
                push_str(&mut out, " start (runner=");
                push_str(&mut out, runner.as_str());
                match image {
                    Some(img) => {
                        push_str(&mut out, " image=");
                        push_str(&mut out, img.as_str());
                        push_str(&mut out, ")\n");
                    },
                    None => {
                        push_str(&mut out, ")\n");
                    },
                }
            },
            BuildEvent::StepLog { step_id, line } => {
                let k = self.step_key(*step_id);
                let p = fmt_key(k.as_str(), self.color);
                push_str(&mut out, p.as_str());
                push_str(&mut out, " ");
                push_str(&mut out, line.as_str());
                push_str(&mut out, "\n");
            },
            BuildEvent::StepCacheHit { step_id, tag } => {
                let k = self.step_key(*step_id);
                let p = fmt_key(k.as_str(), self.color);
                push_str(&mut out, p.as_str());
                push_str(&mut out, " cache hit (");
                push_str(&mut out, tag.as_str());
                push_str(&mut out, ")\n");
            },
            BuildEvent::StepEnd { step_id, exit_code, duration_ms } => {
                let k = self.step_key(*step_id);
                let p = fmt_key(k.as_str(), self.color);
                push_str(&mut out, p.as_str());
                push_str(&mut out, " end exit=");
                push_i64(&mut out, *exit_code as i64);
                push_str(&mut out, " duration=");
                push_decimal(&mut out, *duration_ms);
                push_str(&mut out, "ms\n");
            },
            BuildEvent::BuildEnd { exit_code, duration_ms } => {
                push_str(&mut out, "build: end exit=");
                push_i64(&mut out, *exit_code as i64);
                push_str(&mut out, " duration=");
                push_decimal(&mut out, *duration_ms);
                push_str(&mut out, "ms\n");
            },
            BuildEvent::BuildAccepted { number, watch_url } => {
                match watch_url {
                    Some(url) => {
                        push_str(&mut out, "build ");
                        match number {
                            Some(n) => {
                                push_str(&mut out, "#");
                                push_decimal(&mut out, *n);
                                push_str(&mut out, " ");
                            },
                            None => {},
                        }
                        push_str(&mut out, "\u{2192} ");
                        push_str(&mut out, url.as_str());
                        push_str(&mut out, "\n");
                    },
                    None => {
                        proof {
                            assert(out@ =~= Seq::<char>::empty());
                        }
                    },
                }
            },
            BuildEvent::ChainFailed { chain_idx, failed_step_key, exit_code, message } => {
                push_str(&mut out, "chain ");
                push_decimal(&mut out, *chain_idx);
                push_str(&mut out, ": FAILED at step '");
                if self.color {
                    let p = paint(failed_step_key.as_str(), key_color(failed_step_key.as_str()));
                    push_str(&mut out, p.as_str());
                } else {
                    push_str(&mut out, failed_step_key.as_str());
                }
                push_str(&mut out, "' (exit=");
                push_i64(&mut out, *exit_code as i64);
                push_str(&mut out, "): ");
                push_str(&mut out, message.as_str());
                push_str(&mut out, "\n");
            },
        }
        string_of(&out)
    }
}

} // verus!
