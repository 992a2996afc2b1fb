//! Pure text decisions around the engine: the "how long ago" wording of a
//! repost notice, which URLs name images the engine can fetch, which part
//! of a message carries an image, and how a reaction emote's name is read
//! as a yes or a no.

use vstd::prelude::*;
use vstd::string::StringExecFns;

verus! {

/// Relies on std's `String::push`: appends exactly one character.
#[verifier::external_body]
fn push_char(s: &mut String, c: char)
    ensures
        final(s)@ == old(s)@ + seq![c],
{
    s.push(c);
}

/// Relies on std's `str::chars`: yields exactly the string's characters,
/// in order.
#[verifier::external_body]
fn str_chars(s: &str) -> (r: Vec<char>)
    ensures
        r@ == s@,
{
    s.chars().collect()
}

/// Exact equality of two character strings.
fn chars_eq(a: &Vec<char>, b: &Vec<char>) -> (r: bool)
    ensures
        r == (a@ == b@),
{
    if a.len() != b.len() {
        assert(a@.len() != b@.len());
        return false;
    }
    let n = a.len();
    let mut i: usize = 0;
    while i < n
        invariant
            n == a@.len() == b@.len(),
            0 <= i <= n,
            forall|j: int| 0 <= j < i ==> a@[j] == b@[j],
        decreases n - i,
    {
        if a[i] != b[i] {
            return false;
        }
        i += 1;
    }
    assert(a@ =~= b@);
    true
}

/// The decimal digit `d` as a character.
pub open spec fn dec_digit(d: u64) -> char {
    ((48 + d) as u8) as char
}

/// The decimal writing of a number, most significant digit first.
pub open spec fn dec_str(n: u64) -> Seq<char>
    decreases n,
{
    if n < 10 {
        seq![dec_digit(n)]
    } else {
        dec_str(n / 10) + seq![dec_digit(n % 10)]
    }
}

/// One decimal digit as a character.
fn digit_char(d: u64) -> (c: char)
    requires
        d < 10,
    ensures
        c == dec_digit(d),
{
    (48 + d as u8) as char
}

/// Write a number in decimal.
pub fn u64_to_string(n: u64) -> (r: String)
    ensures
        r@ == dec_str(n),
    decreases n,
{
    if n < 10 {
        let mut s = String::new();
        push_char(&mut s, digit_char(n));
        assert(s@ =~= dec_str(n));
        s
    } else {
        let mut s = u64_to_string(n / 10);
        push_char(&mut s, digit_char(n % 10));
        s
    }
}

/// The wording of "how long ago": the coarsest unit (days, then hours,
/// then minutes, then seconds) with a nonzero count, the count written in
/// decimal, the unit singular exactly when the count is one or zero.
pub open spec fn time_since_spec(seconds: u64) -> Seq<char> {
    let days = seconds / 86400;
    let hours = seconds / 3600;
    let minutes = seconds / 60;
    if days > 0 {
        dec_str(days) + (" ")@ + (if days > 1 {
            ("days")@
        } else {
            ("day")@
        }) + (" ago")@
    } else if hours > 0 {
        dec_str(hours) + (" ")@ + (if hours > 1 {
            ("hours")@
        } else {
            ("hour")@
        }) + (" ago")@
    } else if minutes > 0 {
        dec_str(minutes) + (" ")@ + (if minutes > 1 {
            ("minutes")@
        } else {
            ("minute")@
        }) + (" ago")@
    } else {
        dec_str(seconds) + (" ")@ + (if seconds > 1 {
            ("seconds")@
        } else {
            ("second")@
        }) + (" ago")@
    }
}

/// A count and its unit, worded as "<count> <unit> ago".
fn ago(n: u64, singular: &str, plural: &str) -> (r: String)
    ensures
        r@ == dec_str(n) + (" ")@ + (if n > 1 {
            plural@
        } else {
            singular@
        }) + (" ago")@,
{
    let mut s = u64_to_string(n);
    s.append(" ");
    if n > 1 {
        s.append(plural);
    } else {
        s.append(singular);
    }
    s.append(" ago");
    s
}

/// How long ago a duration of `seconds` was, in words.
pub fn time_since(seconds: u64) -> (r: String)
    ensures
        r@ == time_since_spec(seconds),
{
    let days = seconds / 86400;
    if days > 0 {
        return ago(days, "day", "days");
    }
    let hours = seconds / 3600;
    if hours > 0 {
        return ago(hours, "hour", "hours");
    }
    let minutes = seconds / 60;
    if minutes > 0 {
        return ago(minutes, "minute", "minutes");
    }
    ago(seconds, "second", "seconds")
}

/// An upper-case ASCII letter folded to lower case; anything else kept.
pub open spec fn ascii_lower(c: char) -> char {
    if 'A' <= c <= 'Z' {
        (((c as u8) + 32) as u8) as char
    } else {
        c
    }
}

/// A whole string folded to lower case, ASCII letters only.
pub open spec fn lower_seq(s: Seq<char>) -> Seq<char> {
    s.map_values(|c: char| ascii_lower(c))
}

/// `i` is where the last dot of `u` stands.
pub open spec fn is_last_dot(u: Seq<char>, i: int) -> bool {
    0 <= i < u.len() && u[i] == '.' && (forall|j: int| i < j < u.len() ==> u[j] != '.')
}

/// Where the URL's extension starts: right after the last dot, or at the
/// start when there is none (the whole URL then counts as the extension).
pub open spec fn ext_start(u: Seq<char>) -> int {
    if exists|i: int| is_last_dot(u, i) {
        (choose|i: int| is_last_dot(u, i)) + 1
    } else {
        0
    }
}

/// How far the extension runs: up to the first colon, or to the end.
pub open spec fn ext_end(u: Seq<char>, s: int) -> int {
    if exists|i: int| s <= i < u.len() && u[i] == ':' && (forall|j: int|
        s <= j < i ==> u[j] != ':') {
        choose|i: int|
            s <= i < u.len() && u[i] == ':' && (forall|j: int| s <= j < i ==> u[j] != ':')
    } else {
        u.len() as int
    }
}

/// The URL's extension: what follows the last dot, cut at the first colon.
pub open spec fn url_extension(u: Seq<char>) -> Seq<char> {
    let s = ext_start(u);
    u.subrange(s, ext_end(u, s))
}

/// The extensions the engine accepts, compared without regard to ASCII
/// case.
pub open spec fn supported_ext(e: Seq<char>) -> bool {
    ||| lower_seq(e) == seq!['p', 'n', 'g']
    ||| lower_seq(e) == seq!['j', 'p', 'g']
    ||| lower_seq(e) == seq!['j', 'p', 'e', 'g']
    ||| lower_seq(e) == seq!['g', 'i', 'f']
    ||| lower_seq(e) == seq!['w', 'e', 'b', 'p']
}

/// The URL names an image in a format the engine accepts.
pub open spec fn has_image_extension(u: Seq<char>) -> bool {
    supported_ext(url_extension(u))
}

/// Fold one character to lower case.
fn ascii_lower_exec(c: char) -> (r: char)
    ensures
        r == ascii_lower(c),
{
    if 'A' <= c && c <= 'Z' {
        assert(c as u8 <= 90);
        ((c as u8) + 32) as char
    } else {
        c
    }
}

/// Does the extension name a format the engine accepts?
fn ext_supported(ext: &Vec<char>) -> (r: bool)
    ensures
        r == supported_ext(ext@),
{
    let n = ext.len();
    let mut low: Vec<char> = Vec::new();
    let mut i: usize = 0;
    while i < n
        invariant
            n == ext@.len(),
            0 <= i <= n,
            low@.len() == i,
            forall|j: int| 0 <= j < i ==> low@[j] == ascii_lower(ext@[j]),
        decreases n - i,
    {
        low.push(ascii_lower_exec(ext[i]));
        i += 1;
    }
    assert(low@ =~= lower_seq(ext@));
    let r = if low.len() == 3 && low[0] == 'p' && low[1] == 'n' && low[2] == 'g' {
        true
    } else if low.len() == 3 && low[0] == 'j' && low[1] == 'p' && low[2] == 'g' {
        true
    } else if low.len() == 4 && low[0] == 'j' && low[1] == 'p' && low[2] == 'e' && low[3] == 'g' {
        true
    } else if low.len() == 3 && low[0] == 'g' && low[1] == 'i' && low[2] == 'f' {
        true
    } else if low.len() == 4 && low[0] == 'w' && low[1] == 'e' && low[2] == 'b' && low[3] == 'p' {
        true
    } else {
        false
    };
    proof {
        if r {
            if low@.len() == 3 && low@[0] == 'p' && low@[1] == 'n' && low@[2] == 'g' {
                assert(low@ =~= seq!['p', 'n', 'g']);
            } else if low@.len() == 3 && low@[0] == 'j' && low@[1] == 'p' && low@[2] == 'g' {
                assert(low@ =~= seq!['j', 'p', 'g']);
            } else if low@.len() == 4 && low@[0] == 'j' && low@[1] == 'p' && low@[2] == 'e'
                && low@[3] == 'g' {
                assert(low@ =~= seq!['j', 'p', 'e', 'g']);
            } else if low@.len() == 3 && low@[0] == 'g' && low@[1] == 'i' && low@[2] == 'f' {
                assert(low@ =~= seq!['g', 'i', 'f']);
            } else {
                assert(low@ =~= seq!['w', 'e', 'b', 'p']);
            }
        }
    }
    r
}

/// Keep a URL only when its extension (what follows the last dot, cut at
/// the first colon) names an image format the engine accepts, without
/// regard to ASCII case.
#[verifier::loop_isolation(false)]
pub fn filter_image<'a>(url: &'a str) -> (r: Option<&'a str>)
    ensures
        has_image_extension(url@) ==> r == Some(url),
        !has_image_extension(url@) ==> r is None,
{
    let chars = str_chars(url);
    let n = chars.len();

    // Find where the extension starts: one past the last dot.
    let mut start: usize = 0;
    let mut i: usize = n;
    let mut found_dot = false;
    while i > 0 && !found_dot
        invariant
            0 <= i <= n,
            !found_dot ==> start == 0 && (forall|j: int| i <= j < n ==> chars@[j] != '.'),
            found_dot ==> 1 <= start <= n && is_last_dot(url@, start - 1),
        decreases i,
    {
        i -= 1;
        if chars[i] == '.' {
            start = i + 1;
            found_dot = true;
            proof {
                assert(is_last_dot(url@, i as int));
            }
        }
    }
    proof {
        if found_dot {
            assert(exists|k: int| is_last_dot(url@, k));
            let k = choose|k: int| is_last_dot(url@, k);
            assert(k == start - 1) by {
                if k < start - 1 {
                    assert(url@[start - 1] == '.');
                } else if k > start - 1 {
                    assert(url@[k] == '.');
                }
            }
            assert(ext_start(url@) == start as int);
        } else {
            assert(forall|k: int| !is_last_dot(url@, k));
            assert(ext_start(url@) == 0);
        }
    }

    // Find where the extension stops: at the first colon, or the end.
    let mut end: usize = n;
    let mut k: usize = start;
    let mut found_colon = false;
    while k < n && !found_colon
        invariant
            start <= k <= n,
            !found_colon ==> end == n && (forall|t: int| start <= t < k ==> url@[t] != ':'),
            found_colon ==> start <= end < n && url@[end as int] == ':' && (forall|t: int|
                start <= t < end ==> url@[t] != ':'),
        decreases n - k,
    {
        if chars[k] == ':' {
            end = k;
            found_colon = true;
        }
        k += 1;
    }
    proof {
        if found_colon {
            let w = choose|i: int|
                start <= i < url@.len() && url@[i] == ':' && (forall|j: int|
                    start <= j < i ==> url@[j] != ':');
            assert(w == end as int) by {
                if w < end as int {
                    assert(url@[w] == ':');
                } else if w > end as int {
                    assert(url@[end as int] == ':');
                }
            }
            assert(ext_end(url@, start as int) == end as int);
        } else {
            assert(forall|t: int| start <= t < n ==> url@[t] != ':');
            assert(ext_end(url@, start as int) == n as int);
        }
    }

    // Collect the extension.
    let mut ext: Vec<char> = Vec::new();
    let mut j: usize = start;
    while j < end
        invariant
            start <= j <= end <= n,
            ext@ == url@.subrange(start as int, j as int),
        decreases end - j,
    {
        ext.push(chars[j]);
        proof {
            assert(ext@ =~= url@.subrange(start as int, j as int + 1));
        }
        j += 1;
    }
    proof {
        assert(ext@ =~= url_extension(url@));
    }

    if ext_supported(&ext) {
        Some(url)
    } else {
        None
    }
}

/// One embed of a message, reduced to what the image filter reads: the
/// embed's kind, its direct link, and its image's link.
pub struct EmbedInfo {
    /// What the embed is ("image" for a direct image embed).
    pub kind: String,
    /// The embed's own link, if it has one.
    pub url: Option<String>,
    /// The link of the embed's image, if the embed carries one.
    pub image_url: Option<String>,
}

/// The link an embed offers for image checking: a direct link when the
/// embed is itself an image, else its image's link.
pub open spec fn embed_candidate(e: EmbedInfo) -> Option<Seq<char>> {
    if e.kind@ == ("image")@ && e.url is Some {
        Some(e.url->Some_0@)
    } else if e.image_url is Some {
        Some(e.image_url->Some_0@)
    } else {
        None
    }
}

/// The link an embed contributes: its candidate, kept only when it names
/// an image format the engine accepts.
pub open spec fn embed_image_link(e: EmbedInfo) -> Option<Seq<char>> {
    match embed_candidate(e) {
        Some(u) => if has_image_extension(u) {
            Some(u)
        } else {
            None
        },
        None => None,
    }
}

/// Extract an embed's image link, if its URL passes the image filter.
pub fn filter_embed<'a>(embed: &'a EmbedInfo) -> (r: Option<&'a str>)
    ensures
        match r {
            Some(u) => embed_image_link(*embed) == Some(u@),
            None => embed_image_link(*embed) is None,
        },
{
    let kind_chars = str_chars(embed.kind.as_str());
    let image_word = str_chars("image");
    let url: &String = if chars_eq(&kind_chars, &image_word) && embed.url.is_some() {
        match &embed.url {
            Some(u) => u,
            None => {
                return None;
            },
        }
    } else {
        match &embed.image_url {
            Some(u) => u,
            None => {
                return None;
            },
        }
    };
    filter_image(url.as_str())
}

/// The first image link among a message's embeds.
pub open spec fn first_embed_link(embeds: Seq<EmbedInfo>) -> Option<Seq<char>>
    decreases embeds.len(),
{
    if embeds.len() == 0 {
        None
    } else {
        match embed_image_link(embeds[0]) {
            Some(u) => Some(u),
            None => first_embed_link(embeds.drop_first()),
        }
    }
}

/// The first image link among a message's attachment URLs.
pub open spec fn first_attachment_link(urls: Seq<Seq<char>>) -> Option<Seq<char>>
    decreases urls.len(),
{
    if urls.len() == 0 {
        None
    } else if has_image_extension(urls[0]) {
        Some(urls[0])
    } else {
        first_attachment_link(urls.drop_first())
    }
}

/// The image link a message offers: the first embed that carries one, and
/// only then the first attachment whose URL passes the image filter.
pub open spec fn message_image_link(embeds: Seq<EmbedInfo>, urls: Seq<Seq<char>>) -> Option<
    Seq<char>,
> {
    match first_embed_link(embeds) {
        Some(u) => Some(u),
        None => first_attachment_link(urls),
    }
}

/// Pick the image link out of one message: embeds first, then attachments.
#[verifier::loop_isolation(false)]
pub fn image_from_message<'a>(embeds: &'a Vec<EmbedInfo>, attachment_urls: &'a Vec<String>) -> (r:
    Option<&'a str>)
    ensures
        match r {
            Some(u) => message_image_link(embeds@, attachment_urls@.map_values(|s: String| s@))
                == Some(u@),
            None => message_image_link(embeds@, attachment_urls@.map_values(|s: String| s@))
                is None,
        },
{
    let ghost urlseq = attachment_urls@.map_values(|s: String| s@);
    proof {
        assert(embeds@.skip(0) =~= embeds@);
        assert(urlseq.skip(0) =~= urlseq);
    }
    let mut i: usize = 0;
    let n = embeds.len();
    while i < n
        invariant
            0 <= i <= n,
            first_embed_link(embeds@.skip(i as int)) == first_embed_link(embeds@),
        decreases n - i,
    {
        proof {
            assert(embeds@.skip(i as int).drop_first() =~= embeds@.skip(i as int + 1));
            assert(embeds@.skip(i as int)[0] == embeds@[i as int]);
        }
        match filter_embed(&embeds[i]) {
            Some(u) => {
                return Some(u);
            },
            None => (),
        }
        i += 1;
    }
    proof {
        assert(embeds@.skip(n as int) =~= Seq::<EmbedInfo>::empty());
    }
    let m = attachment_urls.len();
    let mut j: usize = 0;
    while j < m
        invariant
            0 <= j <= m,
            first_attachment_link(urlseq.skip(j as int)) == first_attachment_link(urlseq),
        decreases m - j,
    {
        proof {
            assert(urlseq.skip(j as int).drop_first() =~= urlseq.skip(j as int + 1));
            assert(urlseq.skip(j as int)[0] == urlseq[j as int]);
            assert(urlseq[j as int] == attachment_urls@[j as int]@);
        }
        match filter_image(attachment_urls[j].as_str()) {
            Some(u) => {
                return Some(u);
            },
            None => (),
        }
        j += 1;
    }
    proof {
        assert(urlseq.skip(m as int) =~= Seq::<Seq<char>>::empty());
    }
    None
}

/// Does one string contain another anywhere?
pub open spec fn contains_seq(s: Seq<char>, sub: Seq<char>) -> bool {
    exists|i: int| 0 <= i <= s.len() - sub.len() && #[trigger] s.subrange(i, i + sub.len()) == sub
}

/// Does one string start with another?
pub open spec fn starts_with_seq(s: Seq<char>, p: Seq<char>) -> bool {
    p.len() <= s.len() && s.subrange(0, p.len() as int) == p
}

/// Substring search.
#[verifier::loop_isolation(false)]
fn contains_chars(s: &Vec<char>, sub: &Vec<char>) -> (r: bool)
    ensures
        r == contains_seq(s@, sub@),
{
    let n = s.len();
    let m = sub.len();
    if m > n {
        assert(!contains_seq(s@, sub@));
        return false;
    }
    if m == 0 {
        proof {
            assert(s@.subrange(0, 0 + sub@.len() as int) =~= sub@);
            assert(contains_seq(s@, sub@));
        }
        return true;
    }
    let mut i: usize = 0;
    while i <= n - m
        invariant
            m <= n,
            0 <= i <= n - m + 1,
            forall|t: int| 0 <= t < i ==> #[trigger] s@.subrange(t, t + m) != sub@,
        decreases n - m - i + 1,
    {
        let mut j: usize = 0;
        let mut matches = true;
        while j < m
            invariant
                i + m <= n,
                0 <= j <= m,
                matches ==> forall|t: int| 0 <= t < j ==> s@[i + t] == #[trigger] sub@[t],
                !matches ==> s@.subrange(i as int, i as int + m) != sub@,
            decreases m - j,
        {
            if s[i + j] != sub[j] {
                proof {
                    assert(s@.subrange(i as int, i as int + m)[j as int] == s@[i + j]);
                }
                matches = false;
                break ;
            }
            j += 1;
        }
        if matches {
            proof {
                assert(s@.subrange(i as int, i as int + m) =~= sub@);
            }
            return true;
        }
        i += 1;
    }
    assert forall|t: int| 0 <= t <= s@.len() - sub@.len() implies #[trigger] s@.subrange(t, t + m)
        != sub@ by {
        assert(0 <= t < i);
    }
    false
}

/// Prefix test.
fn starts_with_chars(s: &Vec<char>, p: &Vec<char>) -> (r: bool)
    ensures
        r == starts_with_seq(s@, p@),
{
    let n = s.len();
    let m = p.len();
    if m > n {
        return false;
    }
    let mut j: usize = 0;
    while j < m
        invariant
            m <= n,
            n == s@.len(),
            m == p@.len(),
            0 <= j <= m,
            forall|t: int| 0 <= t < j ==> s@[t] == p@[t],
        decreases m - j,
    {
        if s[j] != p[j] {
            proof {
                assert(s@.subrange(0, m as int)[j as int] == s@[j as int]);
            }
            return false;
        }
        j += 1;
    }
    assert(s@.subrange(0, m as int) =~= p@);
    true
}

/// What a reaction emote's name answers: yes for the confirmation mark or
/// any name containing "yes" or "Yes"; no for the cancel mark or any name
/// starting with "no" or "No"; nothing otherwise (or when the emote has no
/// name at all).
pub open spec fn confirmation_of(name: Seq<char>) -> Option<bool> {
    if name == ("✅")@ {
        Some(true)
    } else if name == ("❌")@ {
        Some(false)
    } else if contains_seq(name, ("yes")@) || contains_seq(name, ("Yes")@) {
        Some(true)
    } else if starts_with_seq(name, ("no")@) || starts_with_seq(name, ("No")@) {
        Some(false)
    } else {
        None
    }
}

/// Read a reaction emote's name (when it has one) as a confirmation, a
/// cancellation, or neither.
pub fn check_emote_name_for_confirmation(name: Option<&str>) -> (r: Option<bool>)
    ensures
        match name {
            Some(n) => r == confirmation_of(n@),
            None => r is None,
        },
{
    let n = match name {
        Some(n) => n,
        None => {
            return None;
        },
    };
    let chars = str_chars(n);
    if chars_eq(&chars, &str_chars(ConfirmationAction::CONFIRMED)) {
        return Some(true);
    }
    if chars_eq(&chars, &str_chars(ConfirmationAction::CANCELED)) {
        return Some(false);
    }
    if contains_chars(&chars, &str_chars("yes")) {
        return Some(true);
    }
    if contains_chars(&chars, &str_chars("Yes")) {
        return Some(true);
    }
    if starts_with_chars(&chars, &str_chars("no")) {
        return Some(false);
    }
    if starts_with_chars(&chars, &str_chars("No")) {
        return Some(false);
    }
    None
}

/// An action a user is asked to confirm by reacting.
pub enum ConfirmationAction {
    /// Exclude an image from repost notifications.
    IgnoreImage,
}

impl ConfirmationAction {
    /// The reaction that confirms the action.
    pub const CONFIRMED: &'static str = "✅";

    /// The reaction that cancels the action.
    pub const CANCELED: &'static str = "❌";

    /// What is said when nobody reacts in time.
    pub const TIMED_OUT: &'static str = "Waiting period elapsed, moving on";

    /// The question put to the user for this action.
    pub fn as_str(&self) -> (r: &'static str)
        ensures
            r@ == ("Do you want to ignore this image?")@,
    {
        match self {
            ConfirmationAction::IgnoreImage => "Do you want to ignore this image?",
        }
    }
}

} // verus!
