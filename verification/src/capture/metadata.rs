//! Active-window metadata: what a window title reveals about the page a
//! browser shows.
use vstd::prelude::*;

use super::FrameMetadata;
use crate::ocr::tsv::{lemma_piece_len_is, piece_len};
use crate::text::{
    chars_of, contains, contains_seq, copy_range, lowercase, rsplit_once, rsplit_once_seq,
    string_from_chars, strip, strip_chars, to_lowercase, CharClass,
};

verus! {

/// Substrings of an application identifier that mark it as a web browser.
pub open spec fn browser_markers() -> Seq<Seq<char>> {
    seq![
        "chrome"@,
        "firefox"@,
        "safari"@,
        "edge"@,
        "brave"@,
        "arc"@,
        "chromium"@,
    ]
}

/// The application is a browser: its lowercase identifier contains a marker.
pub open spec fn is_browser_app(app_id: Seq<char>) -> bool {
    exists|i: int|
        0 <= i < browser_markers().len() && contains_seq(
            lowercase(app_id),
            #[trigger] browser_markers()[i],
        )
}

/// The page part of a browser window title: the text before the last
/// `" - "` (or, failing that, the last `" \u{2014} "`), trimmed; the whole
/// title when neither separator occurs.
pub open spec fn page_title(title: Seq<char>) -> Seq<char> {
    match rsplit_once_seq(title, " - "@) {
        Some((page, _)) => strip(page, CharClass::WhiteSpace),
        None => match rsplit_once_seq(title, " \u{2014} "@) {
            Some((page, _)) => strip(page, CharClass::WhiteSpace),
            None => title,
        },
    }
}

/// The page hint taken from a browser window title.
pub open spec fn browser_url_hint(app_id: Seq<char>, title: Seq<char>) -> Option<Seq<char>> {
    if !is_browser_app(app_id) || page_title(title).len() == 0 {
        None
    } else {
        Some(page_title(title))
    }
}

fn is_browser(app_id: &str) -> (r: bool)
    ensures
        r == is_browser_app(app_id@),
{
    let app_lower = to_lowercase(chars_of(app_id).as_slice());
    let markers: Vec<Vec<char>> = vec![
        chars_of("chrome"),
        chars_of("firefox"),
        chars_of("safari"),
        chars_of("edge"),
        chars_of("brave"),
        chars_of("arc"),
        chars_of("chromium"),
    ];
    assert(markers@.map_values(|m: Vec<char>| m@) =~= browser_markers());
    let mut i: usize = 0;
    while i < markers.len()
        invariant
            markers@.map_values(|m: Vec<char>| m@) == browser_markers(),
            i <= markers@.len(),
            app_lower@ == lowercase(app_id@),
            forall|j: int|
                0 <= j < i ==> !contains_seq(lowercase(app_id@), #[trigger] browser_markers()[j]),
        decreases markers@.len() - i,
    {
        assert(markers@[i as int]@ == browser_markers()[i as int]);
        if contains(app_lower.as_slice(), markers[i].as_slice()) {
            return true;
        }
        i = i + 1;
    }
    false
}

/// Try to extract a page hint from the window title of a browser.
/// Many browsers title their windows "Page Title - Browser Name"; the page
/// title is returned as the hint, and non-browsers give none.
pub fn extract_browser_url(app_id: &str, title: &str) -> (r: Option<String>)
    ensures
        match r {
            Some(s) => browser_url_hint(app_id@, title@) == Some(s@),
            None => browser_url_hint(app_id@, title@) is None,
        },
{
    if !is_browser(app_id) {
        return None;
    }
    let t = chars_of(title);
    let dash = chars_of(" - ");
    let em_dash = chars_of(" \u{2014} ");
    let cleaned = match rsplit_once(t.as_slice(), dash.as_slice()) {
        Some((page, _browser)) => strip_chars(page.as_slice(), CharClass::WhiteSpace),
        None => match rsplit_once(t.as_slice(), em_dash.as_slice()) {
            Some((page, _browser)) => strip_chars(page.as_slice(), CharClass::WhiteSpace),
            None => t,
        },
    };
    assert(cleaned@ == page_title(title@));
    if cleaned.len() == 0 {
        None
    } else {
        Some(string_from_chars(cleaned.as_slice()))
    }
}

/// The metadata of a frame whose active window has this title and belongs
/// to this application.
pub open spec fn is_window_metadata(
    m: FrameMetadata,
    timestamp_ms: u64,
    title: Seq<char>,
    app_id: Seq<char>,
) -> bool {
    &&& m.timestamp_ms == timestamp_ms
    &&& m.active_window_title@ == title
    &&& m.app_bundle_id@ == app_id
    &&& m.display_index == 0
    &&& match m.browser_url {
        Some(u) => browser_url_hint(app_id, title) == Some(u@),
        None => browser_url_hint(app_id, title) is None,
    }
}

/// Frame metadata for the active window, with the page hint of browsers.
pub fn window_metadata(timestamp_ms: u64, title: String, app_id: String) -> (m: FrameMetadata)
    ensures
        is_window_metadata(m, timestamp_ms, title@, app_id@),
{
    let browser_url = extract_browser_url(app_id.as_str(), title.as_str());
    FrameMetadata {
        timestamp_ms,
        active_window_title: title,
        app_bundle_id: app_id,
        browser_url,
        display_index: 0,
    }
}

/// X11: the window name and class as printed by `xdotool` (each trimmed;
/// empty when the tool failed).
pub fn x11_window_metadata(timestamp_ms: u64, raw_title: &str, raw_class: &str) -> (m:
    FrameMetadata)
    ensures
        is_window_metadata(
            m,
            timestamp_ms,
            strip(raw_title@, CharClass::WhiteSpace),
            strip(raw_class@, CharClass::WhiteSpace),
        ),
{
    let title = strip_chars(chars_of(raw_title).as_slice(), CharClass::WhiteSpace);
    let app = strip_chars(chars_of(raw_class).as_slice(), CharClass::WhiteSpace);
    window_metadata(
        timestamp_ms,
        string_from_chars(title.as_slice()),
        string_from_chars(app.as_slice()),
    )
}

/// The application and window title in the `app|title` line printed by the
/// macOS script: the output is trimmed and split at its first `|`; without a
/// `|` it is all application name.
pub open spec fn macos_window_parts(raw_output: Seq<char>) -> (Seq<char>, Seq<char>) {
    let out = strip(raw_output, CharClass::WhiteSpace);
    let k = piece_len(out, '|');
    if k < out.len() {
        (out.take(k as int), out.skip(k as int + 1))
    } else {
        (out, Seq::empty())
    }
}

/// macOS: the metadata from the script's `app|title` output (empty when the
/// script failed).
pub fn macos_window_metadata(timestamp_ms: u64, raw_output: &str) -> (m: FrameMetadata)
    ensures
        is_window_metadata(
            m,
            timestamp_ms,
            macos_window_parts(raw_output@).1,
            macos_window_parts(raw_output@).0,
        ),
{
    let out = strip_chars(chars_of(raw_output).as_slice(), CharClass::WhiteSpace);
    let mut k: usize = 0;
    while k < out.len() && out[k] != '|'
        invariant
            k <= out@.len(),
            forall|j: int| 0 <= j < k ==> out@[j] != '|',
        decreases out@.len() - k,
    {
        k = k + 1;
    }
    proof {
        lemma_piece_len_is(out@, '|', k as int);
    }
    let (app, title) = if k < out.len() {
        (copy_range(out.as_slice(), 0, k), copy_range(out.as_slice(), k + 1, out.len()))
    } else {
        (copy_range(out.as_slice(), 0, out.len()), Vec::new())
    };
    assert(out@.subrange(0, out@.len() as int) =~= out@);
    assert(k < out@.len() ==> app@ =~= out@.take(k as int) && title@ =~= out@.skip(k + 1));
    window_metadata(
        timestamp_ms,
        string_from_chars(title.as_slice()),
        string_from_chars(app.as_slice()),
    )
}


/// The browsers recognized: an application is a browser exactly when its
/// lowercase identifier contains one of `chrome`, `firefox`, `safari`,
/// `edge`, `brave`, `arc` or `chromium`.
pub proof fn lemma_browser_apps(app_id: Seq<char>)
    ensures
        is_browser_app(app_id) <==> (contains_seq(lowercase(app_id), "chrome"@) || contains_seq(
            lowercase(app_id),
            "firefox"@,
        ) || contains_seq(lowercase(app_id), "safari"@) || contains_seq(lowercase(app_id), "edge"@)
            || contains_seq(lowercase(app_id), "brave"@) || contains_seq(lowercase(app_id), "arc"@)
            || contains_seq(lowercase(app_id), "chromium"@)),
{
    let l = lowercase(app_id);
    let ms = browser_markers();
    assert(ms[0] == "chrome"@);
    assert(ms[1] == "firefox"@);
    assert(ms[2] == "safari"@);
    assert(ms[3] == "edge"@);
    assert(ms[4] == "brave"@);
    assert(ms[5] == "arc"@);
    assert(ms[6] == "chromium"@);
    if is_browser_app(app_id) {
        let i = choose|i: int| 0 <= i < ms.len() && contains_seq(l, #[trigger] ms[i]);
        assert(0 <= i < 7);
    }
}

/// Browser pages are hinted whatever the browser: a browser window whose page
/// title is not empty gives that page title as the hint, and a window of any
/// other application gives none.
pub proof fn lemma_browser_hint(app_id: Seq<char>, title: Seq<char>)
    ensures
        !is_browser_app(app_id) ==> browser_url_hint(app_id, title) is None,
        is_browser_app(app_id) && page_title(title).len() > 0 ==> browser_url_hint(app_id, title)
            == Some(page_title(title)),
{
}

} // verus!
