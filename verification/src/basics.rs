//! Small pieces of the bot: message log kinds, text filters, statistics
//! periods, feature switches, link fixing, Markdown escaping and word
//! cutting.
use vstd::prelude::*;
use crate::text::{chars_of, eq_str, has_prefix, push_char, push_str, string_of, trim_spec};

verus! {

/// The kind of a logged message.
#[derive(Clone, Copy, Debug, PartialEq, Eq, Structural)]
pub enum MessageType {
    Command,
    Text,
    Callback,
}

impl MessageType {
    /// The number a log stores for the kind.
    pub fn code(self) -> (r: u8)
        ensures
            r == match self {
                MessageType::Command => 0u8,
                MessageType::Text => 1u8,
                MessageType::Callback => 2u8,
            },
    {
        match self {
            MessageType::Command => 0,
            MessageType::Text => 1,
            MessageType::Callback => 2,
        }
    }
}

/// How handling a message ended.
#[derive(Clone, Copy, Debug, PartialEq, Eq, Structural)]
pub enum MessageStatus {
    Success,
    CmdError,
    RunError,
}

impl MessageStatus {
    /// The number a log stores for the status.
    pub fn code(self) -> (r: u8)
        ensures
            r == match self {
                MessageStatus::Success => 0u8,
                MessageStatus::CmdError => 1u8,
                MessageStatus::RunError => 2u8,
            },
    {
        match self {
            MessageStatus::Success => 0,
            MessageStatus::CmdError => 1,
            MessageStatus::RunError => 2,
        }
    }
}

/// What a log records of a message: its id, the command, how it ended and
/// how long it took.
#[derive(Debug)]
pub struct MessageContext {
    pub message_id: i32,
    pub command: Option<String>,
    pub status: MessageStatus,
    pub time_cost: i64,
}

impl MessageContext {
    /// A message not yet handled: no command, success, no time spent.
    pub fn new(message_id: i32) -> (r: Self)
        ensures
            r.message_id == message_id,
            r.command is None,
            r.status == MessageStatus::Success,
            r.time_cost == 0,
    {
        MessageContext { message_id, command: None, status: MessageStatus::Success, time_cost: 0 }
    }
}

/// A period of message statistics.
#[derive(Debug, PartialEq, Eq, Clone, Copy, Structural)]
pub enum Duration {
    Day,
    Week,
    Month,
    Quarter,
    Year,
    Invalid,
}

/// The period a name gives: its full or one-letter name, else invalid.
pub open spec fn duration_of(v: Seq<char>) -> Duration {
    if v == "day"@ || v == "d"@ {
        Duration::Day
    } else if v == "week"@ || v == "w"@ {
        Duration::Week
    } else if v == "month"@ || v == "m"@ {
        Duration::Month
    } else if v == "quarter"@ || v == "q"@ {
        Duration::Quarter
    } else if v == "year"@ || v == "y"@ {
        Duration::Year
    } else {
        Duration::Invalid
    }
}

impl Duration {
    /// The period a name gives.
    pub fn from_name(value: &str) -> (r: Duration)
        ensures
            r == duration_of(value@),
    {
        let v = chars_of(value);
        if eq_str(&v, "day") || eq_str(&v, "d") {
            Duration::Day
        } else if eq_str(&v, "week") || eq_str(&v, "w") {
            Duration::Week
        } else if eq_str(&v, "month") || eq_str(&v, "m") {
            Duration::Month
        } else if eq_str(&v, "quarter") || eq_str(&v, "q") {
            Duration::Quarter
        } else if eq_str(&v, "year") || eq_str(&v, "y") {
            Duration::Year
        } else {
            Duration::Invalid
        }
    }
}

/// A feature that can be switched on or off in a group.
#[derive(Debug, PartialEq, Eq, Clone, Copy, Structural)]
pub enum SwitchType {
    WordCloud,
}

impl SwitchType {
    /// The bit of the group's flags that holds the switch.
    pub fn offset(self) -> (r: usize)
        ensures
            r == 0,
    {
        match self {
            SwitchType::WordCloud => 0,
        }
    }
}

/// A word and how often a group used it.
#[derive(Debug, PartialEq, Eq)]
pub struct Word {
    pub word: String,
    pub frequency: i32,
}

/// A user and how many messages they sent.
pub struct UserFrequency {
    pub user_id: u64,
    pub name: String,
    pub frequency: i32,
}

/// A filter that passes messages whose text contains a phrase.
#[derive(Clone)]
pub struct Contain<'a>(pub &'a str);

impl<'a> Contain<'a> {
    pub fn new(text: &'a str) -> (r: Box<Contain<'a>>)
        ensures
            r.0@ == text@,
    {
        Box::new(Contain(text))
    }

    /// Whether a message with this text passes: it has text containing the
    /// phrase.
    pub fn check_text(&self, text: Option<&str>) -> (r: bool)
        ensures
            r == match text {
                Some(t) => crate::text::contains_seq(t@, self.0@),
                None => false,
            },
    {
        match text {
            Some(t) => {
                let v = chars_of(t);
                crate::text::contains_str(&v, self.0)
            },
            None => false,
        }
    }
}

/// A filter that passes messages whose text is exactly a phrase.
#[derive(Clone)]
pub struct Equal(pub String);

impl Equal {
    pub fn new(text: &str) -> (r: Box<Equal>)
        ensures
            r.0@ == text@,
    {
        Box::new(Equal(text.to_owned()))
    }

    /// Whether a message with this text passes: its text is the phrase.
    pub fn check_text(&self, text: Option<&str>) -> (r: bool)
        ensures
            r == match text {
                Some(t) => t@ == self.0@,
                None => false,
            },
    {
        match text {
            Some(t) => crate::text::str_eq(t, self.0.as_str()),
            None => false,
        }
    }
}

/// A link with a scheme: trimmed, and `http://` put before one without.
pub open spec fn fix_start_spec(u: Seq<char>) -> Seq<char> {
    let t = trim_spec(u);
    if has_prefix(t, "http://"@) || has_prefix(t, "https://"@) {
        t
    } else {
        "http://"@ + t
    }
}

/// Fixing a link a second time changes nothing.
pub proof fn lemma_fix_start_idempotent(u: Seq<char>)
    ensures
        fix_start_spec(fix_start_spec(u)) == fix_start_spec(u),
{
    let t = trim_spec(u);
    crate::text::lemma_trim_idempotent(u);
    if !(has_prefix(t, "http://"@) || has_prefix(t, "https://"@)) {
        reveal_strlit("http://");
        let r = "http://"@ + t;
        crate::text::lemma_trim_start_shape(u);
        crate::text::lemma_trim_end_shape(crate::text::trim_start_spec(u));
        assert(r[0] == 'h');
        if t.len() > 0 {
            assert(r.last() == t.last());
        } else {
            assert(r.last() == '/');
        }
        assert(crate::text::trim_start_spec(r) == r);
        assert(crate::text::trim_end_spec(r) == r);
        assert(r.take(7) =~= "http://"@);
    }
}

pub fn fix_start(u: String) -> (r: String)
    ensures
        r@ == fix_start_spec(u@),
{
    let url = crate::text::trim_str(u.as_str());
    let v = chars_of(url.as_str());
    if crate::text::starts_with_str(&v, "http://") || crate::text::starts_with_str(&v, "https://") {
        return url;
    }
    crate::text::concat("http://", url.as_str())
}

/// Whether Telegram's Markdown needs the character escaped.
pub open spec fn md_special(c: char) -> bool {
    c == '*' || c == '_' || c == '[' || c == ']' || c == '(' || c == ')' || c == '~' || c == '`'
        || c == '>' || c == '#' || c == '+' || c == '-' || c == '=' || c == '|' || c == '{' || c
        == '}' || c == '.' || c == '!'
}

/// The text with every special character escaped by a backslash.
pub open spec fn md_escape_spec(s: Seq<char>) -> Seq<char>
    decreases s.len(),
{
    if s.len() == 0 {
        Seq::empty()
    } else {
        md_escape_spec(s.drop_last()) + if md_special(s.last()) {
            seq!['\\', s.last()]
        } else {
            seq![s.last()]
        }
    }
}

fn escape_special_chars(v: &[char], out: &mut Vec<char>)
    ensures
        final(out)@ == old(out)@ + md_escape_spec(v@),
{
    let ghost o = out@;
    let mut i: usize = 0;
    while i < v.len()
        invariant
            i <= v.len(),
            out@ == o + md_escape_spec(v@.take(i as int)),
        decreases v.len() - i,
    {
        let c = v[i];
        if c == '*' || c == '_' || c == '[' || c == ']' || c == '(' || c == ')' || c == '~' || c
            == '`' || c == '>' || c == '#' || c == '+' || c == '-' || c == '=' || c == '|' || c
            == '{' || c == '}' || c == '.' || c == '!' {
            out.push('\\');
        }
        out.push(c);
        proof {
            assert(v@.take(i + 1).drop_last() =~= v@.take(i as int));
            assert(v@.take(i + 1).last() == c);
            assert(out@ =~= o + md_escape_spec(v@.take(i + 1)));
        }
        i = i + 1;
    }
    proof {
        assert(v@.take(v.len() as int) =~= v@);
    }
}

/// Whether `**` starts at `p`.
pub open spec fn stars_at(s: Seq<char>, p: int) -> bool {
    0 <= p && p + 2 <= s.len() && s[p] == '*' && s[p + 1] == '*'
}

/// Where the closing `**` of a bold run starting its text at `p` is: the
/// first `**` from `p` on, with no line break before it.
pub open spec fn close_from(s: Seq<char>, p: int) -> Option<int>
    decreases s.len() - p,
{
    if p < 0 || p + 2 > s.len() {
        None
    } else if stars_at(s, p) {
        Some(p)
    } else if s[p] == '\n' {
        None
    } else {
        close_from(s, p + 1)
    }
}

/// The first bold run `**...**` from `k` on: its start and the start of
/// its closing `**`.
pub open spec fn first_bold(s: Seq<char>, k: int) -> Option<(int, int)>
    decreases s.len() - k,
{
    if k < 0 || k + 2 > s.len() {
        None
    } else if stars_at(s, k) && close_from(s, k + 2) is Some {
        Some((k, close_from(s, k + 2).unwrap()))
    } else {
        first_bold(s, k + 1)
    }
}

pub proof fn lemma_close_bounds(s: Seq<char>, p: int)
    requires
        0 <= p,
    ensures
        close_from(s, p) matches Some(j) ==> p <= j && j + 2 <= s.len(),
    decreases s.len() - p,
{
    if p + 2 <= s.len() && !stars_at(s, p) && s[p] != '\n' {
        lemma_close_bounds(s, p + 1);
    }
}

pub proof fn lemma_bold_bounds(s: Seq<char>, k: int)
    requires
        0 <= k,
    ensures
        first_bold(s, k) matches Some((a, b)) ==> k <= a && a + 2 <= b && b + 2 <= s.len(),
    decreases s.len() - k,
{
    if k + 2 <= s.len() {
        if stars_at(s, k) && close_from(s, k + 2) is Some {
            lemma_close_bounds(s, k + 2);
        } else {
            lemma_bold_bounds(s, k + 1);
        }
    }
}

/// Text for Telegram's Markdown: the special characters escaped, each
/// `**bold**` run with visible text made `*bold*` (its text escaped), an
/// empty or blank one dropped.
pub open spec fn markdown_spec(s: Seq<char>) -> Seq<char>
    decreases s.len(),
{
    match first_bold(s, 0) {
        Some((a, b)) => {
            proof {
                lemma_bold_bounds(s, 0);
            }
            let inner = s.subrange(a + 2, b);
            md_escape_spec(s.take(a)) + (if trim_spec(inner).len() > 0 {
                seq!['*'] + md_escape_spec(inner) + seq!['*']
            } else {
                Seq::empty()
            }) + markdown_spec(s.skip(b + 2))
        },
        None => md_escape_spec(s),
    }
}

fn close_at(v: &[char], p: usize) -> (r: Option<usize>)
    ensures
        match close_from(v@, p as int) {
            Some(j) => r == Some(j as usize),
            None => r is None,
        },
{
    let mut q = p;
    proof {
        lemma_close_bounds(v@, p as int);
    }
    while q <= v.len() && v.len() - q >= 2
        invariant
            p <= q,
            close_from(v@, q as int) == close_from(v@, p as int),
        decreases v.len() - q,
    {
        if v[q] == '*' && v[q + 1] == '*' {
            return Some(q);
        }
        if v[q] == '\n' {
            return None;
        }
        q = q + 1;
    }
    None
}

proof fn lemma_close_shift(s: Seq<char>, k: int, p: int)
    requires
        0 <= k <= p,
        k <= s.len(),
    ensures
        close_from(s, p) == match close_from(s.skip(k), p - k) {
            Some(j) => Some(j + k),
            None => None,
        },
    decreases s.len() - p,
{
    let t = s.skip(k);
    if p + 2 <= s.len() {
        assert(t[p - k] == s[p]);
        assert(t[p - k + 1] == s[p + 1]);
        if !stars_at(s, p) && s[p] != '\n' {
            lemma_close_shift(s, k, p + 1);
        }
    }
}

proof fn lemma_bold_shift(s: Seq<char>, k: int, i: int)
    requires
        0 <= k <= i,
        k <= s.len(),
    ensures
        first_bold(s, i) == match first_bold(s.skip(k), i - k) {
            Some((a, b)) => Some((a + k, b + k)),
            None => None,
        },
    decreases s.len() - i,
{
    let t = s.skip(k);
    if i + 2 <= s.len() {
        assert(t[i - k] == s[i]);
        assert(t[i - k + 1] == s[i + 1]);
        lemma_close_shift(s, k, i + 2);
        if !(stars_at(s, i) && close_from(s, i + 2) is Some) {
            lemma_bold_shift(s, k, i + 1);
        }
    }
}

pub fn escape_markdown(text: &str) -> (r: String)
    ensures
        r@ == markdown_spec(text@),
{
    let v = chars_of(text);
    let mut out: Vec<char> = Vec::new();
    let mut last: usize = 0;
    let mut k: usize = 0;
    proof {
        assert(v@.skip(0) =~= v@);
        assert(out@ + markdown_spec(v@) =~= markdown_spec(v@));
    }
    while k <= v.len() && v.len() - k >= 2
        invariant
            last <= k <= v.len(),
            v@ == text@,
            out@ + markdown_spec(v@.skip(last as int)) == markdown_spec(text@),
            first_bold(v@, last as int) == first_bold(v@, k as int),
        decreases v.len() - k,
    {
        if v[k] == '*' && v[k + 1] == '*' {
            match close_at(&v, k + 2) {
                Some(j) => {
                    let ghost rest = v@.skip(last as int);
                    proof {
                        lemma_bold_shift(v@, last as int, last as int);
                        lemma_close_bounds(v@, k + 2);
                        assert(first_bold(v@, k as int) == Some((k as int, j as int)));
                        lemma_bold_bounds(rest, 0);
                    }
                    let before = crate::text::sub_vec(&v, last, k);
                    escape_special_chars(&before, &mut out);
                    let inner = crate::text::sub_vec(&v, k + 2, j);
                    if !crate::text::is_blank(&inner) {
                        out.push('*');
                        escape_special_chars(&inner, &mut out);
                        out.push('*');
                    }
                    proof {
                        assert(before@ =~= rest.take(k - last));
                        assert(inner@ =~= rest.subrange(k - last + 2, j - last));
                        assert(rest.skip(j - last + 2) =~= v@.skip(j + 2));
                    }
                    last = j + 2;
                    k = j + 2;
                    continue;
                },
                None => {},
            }
        }
        proof {
            assert(first_bold(v@, k as int) == first_bold(v@, k + 1));
        }
        k = k + 1;
    }
    proof {
        lemma_bold_shift(v@, last as int, last as int);
        assert(first_bold(v@, k as int) is None);
        assert(v@.skip(last as int).skip(0) =~= v@.skip(last as int));
    }
    let rest = crate::text::sub_vec(&v, last, v.len());
    escape_special_chars(&rest, &mut out);
    proof {
        assert(rest@ =~= v@.skip(last as int));
    }
    string_of(&out)
}

/// The words and part-of-speech tags that jieba gives a text (with its
/// hidden Markov model for unknown words).
pub uninterp spec fn jieba_tagged(text: Seq<char>) -> Seq<(Seq<char>, Seq<char>)>;

/// `Jieba::new()` with the default dictionary, then `Jieba::tag(text,
/// true)`: the text's words with their tags, in order.
#[verifier::external_body]
fn jieba_tag(text: &str) -> (r: Vec<(String, String)>)
    ensures
        r@.map_values(|p: (String, String)| (p.0@, p.1@)) == jieba_tagged(text@),
{
    let jieba = jieba_rs::Jieba::new();
    jieba.tag(text, true).iter().map(|t| (t.word.to_string(), t.tag.to_string())).collect()
}

/// The tags of the words kept for a word cloud.
pub open spec fn kept_tag(t: Seq<char>) -> bool {
    t == "v"@ || t == "l"@ || t == "n"@ || t == "nr"@ || t == "a"@ || t == "vd"@ || t == "nz"@ || t
        == "PER"@ || t == "ns"@ || t == "LOC"@ || t == "s"@ || t == "nt"@ || t == "ORG"@ || t
        == "nw"@ || t == "vn"@
}

/// The words of a text kept for a word cloud: those of more than one
/// character whose tag is one of the kept ones, in order.
pub open spec fn cut_spec(tagged: Seq<(Seq<char>, Seq<char>)>) -> Seq<Seq<char>>
    decreases tagged.len(),
{
    if tagged.len() == 0 {
        Seq::empty()
    } else {
        let rest = cut_spec(tagged.drop_last());
        let (w, t) = tagged.last();
        if kept_tag(t) && w.len() > 1 {
            rest.push(w)
        } else {
            rest
        }
    }
}

fn is_kept_tag(t: &str) -> (r: bool)
    ensures
        r == kept_tag(t@),
{
    let v = chars_of(t);
    eq_str(&v, "v") || eq_str(&v, "l") || eq_str(&v, "n") || eq_str(&v, "nr") || eq_str(&v, "a")
        || eq_str(&v, "vd") || eq_str(&v, "nz") || eq_str(&v, "PER") || eq_str(&v, "ns") || eq_str(
        &v,
        "LOC",
    ) || eq_str(&v, "s") || eq_str(&v, "nt") || eq_str(&v, "ORG") || eq_str(&v, "nw") || eq_str(
        &v,
        "vn",
    )
}

/// The words jieba's tagging keeps from a tagged text.
pub fn kept_words(tagged: &[(String, String)]) -> (r: Vec<String>)
    ensures
        crate::text::views(r@) == cut_spec(tagged@.map_values(|p: (String, String)| (p.0@, p.1@))),
{
    let ghost tv = tagged@.map_values(|p: (String, String)| (p.0@, p.1@));
    let mut out: Vec<String> = Vec::new();
    let mut i: usize = 0;
    while i < tagged.len()
        invariant
            i <= tagged.len(),
            tv == tagged@.map_values(|p: (String, String)| (p.0@, p.1@)),
            crate::text::views(out@) == cut_spec(tv.take(i as int)),
        decreases tagged.len() - i,
    {
        proof {
            assert(tv.take(i + 1).drop_last() =~= tv.take(i as int));
            assert(tv.take(i + 1).last() == (tagged@[i as int].0@, tagged@[i as int].1@));
        }
        let w = &tagged[i].0;
        if is_kept_tag(tagged[i].1.as_str()) && chars_of(w.as_str()).len() > 1 {
            out.push(w.clone());
            proof {
                assert(crate::text::views(out@) =~= crate::text::views(out@.drop_last()).push(w@));
            }
        }
        i = i + 1;
    }
    proof {
        assert(tv.take(tagged.len() as int) =~= tv);
    }
    out
}

/// The words of a text for its word cloud.
pub fn text_cut(text: &str) -> (r: Vec<String>)
    ensures
        crate::text::views(r@) == cut_spec(jieba_tagged(text@)),
{
    let tagged = jieba_tag(text);
    kept_words(&tagged)
}

/// The commands of the bot.
#[derive(Clone, Copy, Debug, PartialEq, Eq, Structural)]
pub enum Cmd {
    Help,
    Start,
    My,
    Coin,
    Id,
    Today,
    Wiki,
    Short,
    Rate,
    Wcloud,
    UserFreq,
    Curl,
    Music,
    Config,
    Chat,
    Translate,
    Ping,
    Vv,
    Test,
}

} // verus!
