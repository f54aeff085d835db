use kanban_ledger::render::{html_escape, status_badge};

#[test]
fn escapes_markup_characters() {
    assert_eq!(html_escape("<b>\"Tom\" & 'Jerry'</b>"), "&lt;b&gt;&quot;Tom&quot; &amp; &#x27;Jerry&#x27;&lt;/b&gt;");
    assert_eq!(html_escape("plain é"), "plain é");
    assert_eq!(html_escape(""), "");
}

#[test]
fn badge_per_status() {
    assert_eq!(status_badge("Idle"), "bg-gray-500");
    assert_eq!(status_badge("Busy"), "bg-yellow-500");
    assert_eq!(status_badge("Done"), "bg-green-500");
    assert_eq!(status_badge("Failed"), "bg-red-500");
    assert_eq!(status_badge("idle"), "bg-gray-600");
}
