//! The notification invoker's decisions.
//!
//! Given validated input and the outcome of resolving the referenced assets
//! on disk, [`notify`] decides what the caller must do: play a sound file
//! and show the toast, or show the toast with a built-in audio cue, or fail
//! before any side effect. The toast markup itself is built here too, with
//! exact escaping.

use vstd::prelude::*;

use crate::text::{push_char, str_eq};

verus! {

/// The validated arguments of one notification call.
pub struct NotifyInput {
    pub title: String,
    pub message: String,
    pub sound: String,
    pub icon: String,
}

/// The mathematical model of [`NotifyInput`].
#[verifier::ext_equal]
pub struct NotifyInputV {
    pub title: Seq<char>,
    pub message: Seq<char>,
    pub sound: Seq<char>,
    pub icon: Seq<char>,
}

impl View for NotifyInput {
    type V = NotifyInputV;

    open spec fn view(&self) -> NotifyInputV {
        NotifyInputV {
            title: self.title@,
            message: self.message@,
            sound: self.sound@,
            icon: self.icon@,
        }
    }
}

/// The built-in audio cue for a sound id, if the id names one.
pub open spec fn audio_src_of(id: Seq<char>) -> Option<Seq<char>> {
    if id == "default"@ {
        Some("ms-winsoundevent:Notification.Default"@)
    } else if id == "im"@ {
        Some("ms-winsoundevent:Notification.IM"@)
    } else if id == "mail"@ {
        Some("ms-winsoundevent:Notification.Mail"@)
    } else if id == "reminder"@ {
        Some("ms-winsoundevent:Notification.Reminder"@)
    } else if id == "sms"@ {
        Some("ms-winsoundevent:Notification.SMS"@)
    } else if id == "alarm"@ {
        Some("ms-winsoundevent:Notification.Alarm"@)
    } else if id == "incoming_call"@ {
        Some("ms-winsoundevent:Notification.IncomingCall"@)
    } else {
        None
    }
}

/// Maps a sound id to the platform's built-in audio cue identifier.
pub fn system_sound_to_audio_src(sound_id: &str) -> (r: Option<&'static str>)
    ensures
        r is Some <==> audio_src_of(sound_id@) is Some,
        r is Some ==> Some(r->0@) == audio_src_of(sound_id@),
{
    if str_eq(sound_id, "default") {
        Some("ms-winsoundevent:Notification.Default")
    } else if str_eq(sound_id, "im") {
        Some("ms-winsoundevent:Notification.IM")
    } else if str_eq(sound_id, "mail") {
        Some("ms-winsoundevent:Notification.Mail")
    } else if str_eq(sound_id, "reminder") {
        Some("ms-winsoundevent:Notification.Reminder")
    } else if str_eq(sound_id, "sms") {
        Some("ms-winsoundevent:Notification.SMS")
    } else if str_eq(sound_id, "alarm") {
        Some("ms-winsoundevent:Notification.Alarm")
    } else if str_eq(sound_id, "incoming_call") {
        Some("ms-winsoundevent:Notification.IncomingCall")
    } else {
        None
    }
}

/// How one character is written inside the toast markup.
pub open spec fn xml_escape_char(c: char) -> Seq<char> {
    if c == '&' {
        "&amp;"@
    } else if c == '<' {
        "&lt;"@
    } else if c == '>' {
        "&gt;"@
    } else if c == '"' {
        "&quot;"@
    } else if c == '\'' {
        "&apos;"@
    } else {
        seq![c]
    }
}

/// The markup-escaped form of a string, from character `i` on.
pub open spec fn xml_escaped_from(s: Seq<char>, i: int) -> Seq<char>
    decreases (if i < s.len() { s.len() - i } else { 0 }),
{
    if 0 <= i < s.len() {
        xml_escape_char(s[i]) + xml_escaped_from(s, i + 1)
    } else {
        Seq::empty()
    }
}

/// The markup-escaped form of a string.
pub open spec fn xml_escaped(s: Seq<char>) -> Seq<char> {
    xml_escaped_from(s, 0)
}

/// Escapes a string for inclusion in the toast markup.
#[verifier::loop_isolation(false)]
pub fn xml_escape(value: &str) -> (r: String)
    ensures
        r@ == xml_escaped(value@),
{
    let mut out = String::new();
    let n = value.unicode_len();
    let mut i: usize = 0;
    loop
        invariant
            i <= n,
            n == value@.len(),
            out@ + xml_escaped_from(value@, i as int) == xml_escaped(value@),
        decreases n - i,
    {
        if i == n {
            proof {
                assert(xml_escaped_from(value@, i as int).len() == 0);
                assert(out@ =~= out@ + xml_escaped_from(value@, i as int));
            }
            return out;
        }
        let c = value.get_char(i);
        if c == '&' {
            out.append("&amp;");
        } else if c == '<' {
            out.append("&lt;");
        } else if c == '>' {
            out.append("&gt;");
        } else if c == '"' {
            out.append("&quot;");
        } else if c == '\'' {
            out.append("&apos;");
        } else {
            push_char(&mut out, c);
            proof {
                assert(xml_escape_char(c) =~= seq![c]);
                assert(out@ =~= (out@.drop_last() + xml_escape_char(c)));
            }
        }
        proof {
            assert(xml_escaped_from(value@, i as int) == xml_escape_char(c) + xml_escaped_from(
                value@,
                i as int + 1,
            ));
        }
        i = i + 1;
    }
}

/// The markup for the toast's icon, when an icon file was resolved.
pub open spec fn image_fragment(icon_path: Option<Seq<char>>) -> Seq<char> {
    match icon_path {
        Some(p) => "<image placement=\"appLogoOverride\" src=\"file:///"@ + p + "\"/>"@,
        None => Seq::empty(),
    }
}

/// The markup for the toast's audio: a built-in cue when one is named,
/// otherwise silence (file playback happens outside the toast).
pub open spec fn audio_fragment(audio_src: Option<Seq<char>>) -> Seq<char> {
    match audio_src {
        Some(src) => "<audio src=\""@ + src + "\"/>"@,
        None => "<audio silent=\"true\"/>"@,
    }
}

/// The complete toast markup for a title, a message, an optional icon path
/// and an optional built-in audio cue.
pub open spec fn toast_markup(
    title: Seq<char>,
    message: Seq<char>,
    icon_path: Option<Seq<char>>,
    audio_src: Option<Seq<char>>,
) -> Seq<char> {
    "<toast>\n  <visual>\n    <binding template=\"ToastGeneric\">\n      <text>"@ + xml_escaped(
        title,
    ) + "</text>\n      <text>"@ + xml_escaped(message) + "</text>\n      "@ + image_fragment(
        icon_path,
    ) + "\n    </binding>\n  </visual>\n  "@ + audio_fragment(audio_src) + "\n</toast>"@
}

/// Builds the toast markup.
pub fn toast_xml(
    title: &str,
    message: &str,
    icon_path: Option<&String>,
    audio_src: Option<&str>,
) -> (r: String)
    ensures
        r@ == toast_markup(
            title@,
            message@,
            match icon_path {
                Some(p) => Some(p@),
                None => None,
            },
            match audio_src {
                Some(s) => Some(s@),
                None => None,
            },
        ),
{
    let mut out = String::new();
    out.append("<toast>\n  <visual>\n    <binding template=\"ToastGeneric\">\n      <text>");
    let escaped_title = xml_escape(title);
    out.append(escaped_title.as_str());
    out.append("</text>\n      <text>");
    let escaped_message = xml_escape(message);
    out.append(escaped_message.as_str());
    out.append("</text>\n      ");
    match icon_path {
        Some(p) => {
            out.append("<image placement=\"appLogoOverride\" src=\"file:///");
            out.append(p.as_str());
            out.append("\"/>");
        },
        None => {},
    }
    out.append("\n    </binding>\n  </visual>\n  ");
    match audio_src {
        Some(src) => {
            out.append("<audio src=\"");
            out.append(src);
            out.append("\"/>");
        },
        None => {
            out.append("<audio silent=\"true\"/>");
        },
    }
    out.append("\n</toast>");
    proof {
        assert(out@ =~= toast_markup(
            title@,
            message@,
            match icon_path {
                Some(p) => Some(p@),
                None => None,
            },
            match audio_src {
                Some(s) => Some(s@),
                None => None,
            },
        ));
    }
    out
}

/// The relative file name an icon id resolves to.
pub fn icon_file_name(icon_id: &str) -> (r: String)
    ensures
        r@ == icon_id@ + ".png"@,
{
    let mut out = icon_id.to_owned();
    out.append(".png");
    out
}

/// The relative file name a sound id resolves to.
pub fn sound_file_name(sound_id: &str) -> (r: String)
    ensures
        r@ == sound_id@ + ".wav"@,
{
    let mut out = sound_id.to_owned();
    out.append(".wav");
    out
}

/// How the sound of one notification is to be produced.
pub enum SoundPlan {
    /// Normalize this file's volume through the cache, then play the result;
    /// the toast itself stays silent.
    PlayFile { path: String },
    /// No sound file was found: let the toast play the built-in cue.
    BuiltIn { audio_src: String },
}

/// The model of [`SoundPlan`].
#[verifier::ext_equal]
pub enum SoundPlanV {
    PlayFile { path: Seq<char> },
    BuiltIn { audio_src: Seq<char> },
}

impl View for SoundPlan {
    type V = SoundPlanV;

    open spec fn view(&self) -> SoundPlanV {
        match self {
            SoundPlan::PlayFile { path } => SoundPlanV::PlayFile { path: path@ },
            SoundPlan::BuiltIn { audio_src } => SoundPlanV::BuiltIn { audio_src: audio_src@ },
        }
    }
}

/// Everything the caller must do to present one notification.
pub struct NotifyPlan {
    pub sound: SoundPlan,
    pub toast: String,
}

/// What [`notify`] decides for given resolution results.
pub open spec fn spec_notify(
    input: NotifyInputV,
    icon_path: Option<Seq<char>>,
    sound_path: Option<Seq<char>>,
) -> Result<(SoundPlanV, Seq<char>), Seq<char>> {
    if icon_path is None {
        Err("Missing asset: icons/"@ + input.icon + ".png"@)
    } else {
        match sound_path {
            Some(p) => Ok(
                (
                    SoundPlanV::PlayFile { path: p },
                    toast_markup(input.title, input.message, icon_path, None),
                ),
            ),
            None => match audio_src_of(input.sound) {
                Some(src) => Ok(
                    (
                        SoundPlanV::BuiltIn { audio_src: src },
                        toast_markup(input.title, input.message, icon_path, Some(src)),
                    ),
                ),
                None => Err("Sound not found: "@ + input.sound),
            },
        }
    }
}

/// Decides one notification.
///
/// `icon_path` and `sound_path` are the results of resolving the input's
/// icon and sound ids against the asset directories. A missing icon fails
/// the call before any side effect; a resolved sound file is played after
/// volume normalization, with a silent toast; otherwise a recognized
/// built-in cue plays inline; and an unknown sound fails the call.
pub fn notify(input: &NotifyInput, icon_path: Option<String>, sound_path: Option<String>) -> (r:
    Result<NotifyPlan, String>)
    ensures
        ({
            let spec_r = spec_notify(
                input@,
                match icon_path {
                    Some(p) => Some(p@),
                    None => None,
                },
                match sound_path {
                    Some(p) => Some(p@),
                    None => None,
                },
            );
            match r {
                Ok(plan) => spec_r is Ok && plan.sound@ == spec_r->Ok_0.0 && plan.toast@
                    == spec_r->Ok_0.1,
                Err(msg) => spec_r is Err && msg@ == spec_r->Err_0,
            }
        }),
{
    let icon = match icon_path {
        Some(p) => p,
        None => {
            let mut msg = String::new();
            msg.append("Missing asset: icons/");
            msg.append(input.icon.as_str());
            msg.append(".png");
            assert(msg@ =~= "Missing asset: icons/"@ + input@.icon + ".png"@);
            return Err(msg);
        },
    };
    match sound_path {
        Some(p) => {
            let toast = toast_xml(input.title.as_str(), input.message.as_str(), Some(&icon), None);
            Ok(NotifyPlan { sound: SoundPlan::PlayFile { path: p }, toast })
        },
        None => {
            match system_sound_to_audio_src(input.sound.as_str()) {
                Some(src) => {
                    let toast = toast_xml(
                        input.title.as_str(),
                        input.message.as_str(),
                        Some(&icon),
                        Some(src),
                    );
                    let audio_src = src.to_owned();
                    Ok(NotifyPlan { sound: SoundPlan::BuiltIn { audio_src }, toast })
                },
                None => {
                    let mut msg = String::new();
                    msg.append("Sound not found: ");
                    msg.append(input.sound.as_str());
                    assert(msg@ =~= "Sound not found: "@ + input@.sound);
                    Err(msg)
                },
            }
        },
    }
}

} // verus!
