use toastmcp::notify::{
    icon_file_name, notify, sound_file_name, system_sound_to_audio_src, toast_xml, xml_escape,
    NotifyInput, SoundPlan,
};

fn input(title: &str, message: &str, sound: &str, icon: &str) -> NotifyInput {
    NotifyInput {
        title: title.to_string(),
        message: message.to_string(),
        sound: sound.to_string(),
        icon: icon.to_string(),
    }
}

#[test]
fn xml_escape_rewrites_all_five_metacharacters() {
    assert_eq!(
        xml_escape("a&b<c>d\"e'f"),
        "a&amp;b&lt;c&gt;d&quot;e&apos;f"
    );
    assert_eq!(xml_escape(""), "");
    assert_eq!(xml_escape("plain"), "plain");
    assert_eq!(xml_escape("&&"), "&amp;&amp;");
}

#[test]
fn builtin_sound_ids_map_to_system_cues() {
    assert_eq!(
        system_sound_to_audio_src("default"),
        Some("ms-winsoundevent:Notification.Default")
    );
    assert_eq!(
        system_sound_to_audio_src("im"),
        Some("ms-winsoundevent:Notification.IM")
    );
    assert_eq!(
        system_sound_to_audio_src("mail"),
        Some("ms-winsoundevent:Notification.Mail")
    );
    assert_eq!(
        system_sound_to_audio_src("reminder"),
        Some("ms-winsoundevent:Notification.Reminder")
    );
    assert_eq!(
        system_sound_to_audio_src("sms"),
        Some("ms-winsoundevent:Notification.SMS")
    );
    assert_eq!(
        system_sound_to_audio_src("alarm"),
        Some("ms-winsoundevent:Notification.Alarm")
    );
    assert_eq!(
        system_sound_to_audio_src("incoming_call"),
        Some("ms-winsoundevent:Notification.IncomingCall")
    );
    assert_eq!(system_sound_to_audio_src("Default"), None);
    assert_eq!(system_sound_to_audio_src("zzz"), None);
}

#[test]
fn asset_file_names() {
    assert_eq!(icon_file_name("rocket"), "rocket.png");
    assert_eq!(sound_file_name("ding"), "ding.wav");
}

#[test]
fn toast_markup_is_exact() {
    let icon = "C:/x/icons/rocket.png".to_string();
    let got = toast_xml("A <title>", "B & b", Some(&icon), None);
    let expected = "<toast>\n  <visual>\n    <binding template=\"ToastGeneric\">\n      \
                    <text>A &lt;title&gt;</text>\n      <text>B &amp; b</text>\n      \
                    <image placement=\"appLogoOverride\" src=\"file:///C:/x/icons/rocket.png\"/>\n    \
                    </binding>\n  </visual>\n  <audio silent=\"true\"/>\n</toast>";
    assert_eq!(got, expected);
}

#[test]
fn missing_icon_fails_before_any_side_effect() {
    let r = notify(&input("t", "m", "ding", "rocket"), None, Some("p".to_string()));
    assert_eq!(r.err().unwrap(), "Missing asset: icons/rocket.png");
}

#[test]
fn resolved_sound_file_is_played_with_a_silent_toast() {
    let plan = notify(
        &input("t", "m", "ding", "rocket"),
        Some("icons/rocket.png".to_string()),
        Some("sounds/ding.wav".to_string()),
    )
    .expect("plan");
    match plan.sound {
        SoundPlan::PlayFile { path } => assert_eq!(path, "sounds/ding.wav"),
        _ => panic!("expected file playback"),
    }
    assert!(plan.toast.contains("<audio silent=\"true\"/>"));
    assert!(plan
        .toast
        .contains("src=\"file:///icons/rocket.png\""));
}

#[test]
fn unresolved_builtin_id_plays_inline() {
    let plan = notify(
        &input("t", "m", "mail", "rocket"),
        Some("icons/rocket.png".to_string()),
        None,
    )
    .expect("plan");
    match plan.sound {
        SoundPlan::BuiltIn { audio_src } => {
            assert_eq!(audio_src, "ms-winsoundevent:Notification.Mail")
        }
        _ => panic!("expected built-in cue"),
    }
    assert!(plan
        .toast
        .contains("<audio src=\"ms-winsoundevent:Notification.Mail\"/>"));
}

#[test]
fn unknown_sound_fails_outright() {
    let r = notify(
        &input("t", "m", "zzz", "rocket"),
        Some("icons/rocket.png".to_string()),
        None,
    );
    assert_eq!(r.err().unwrap(), "Sound not found: zzz");
}
