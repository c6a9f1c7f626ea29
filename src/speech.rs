use vstd::prelude::*;

verus! {

/// Opens a passage read at medium pace, with dynamic range compression.
pub const SLOW_SPEECH: &'static str = "<speak><prosody rate=\"medium\"><amazon:effect name=\"drc\">";

/// Opens a passage read slowly, with dynamic range compression.
pub const X_SLOW_SPEECH: &'static str = "<speak><prosody rate=\"slow\"><amazon:effect name=\"drc\">";

/// Closes a passage opened by `SLOW_SPEECH` or `X_SLOW_SPEECH`.
pub const SPEECH_END: &'static str = "</amazon:effect></prosody></speak>";

/// The words that announce an occurrence ("departure to").
pub const OCCURRENCE_LEAD: &'static str = "Saída <phoneme alphabet=\"ipa\" ph=\"pɐ.ɾɐ\">para</phoneme> <break strength=\"weak\" /> ";

/// Opens a passage spelled out letter by letter.
pub const SPELL_OPEN: &'static str = "<say-as interpret-as=\"spell-out\">";

/// Closes a passage opened by `SPELL_OPEN`.
pub const SPELL_CLOSE: &'static str = "</say-as>";

/// How a spelled-out `S` is read: outside the spelled passage, with its own pronunciation.
pub const S_SOUND: &'static str = "</say-as><phoneme alphabet=\"ipa\" ph=\"ˈɛs\">S</phoneme><say-as interpret-as=\"spell-out\">";

/// What `str::to_uppercase` returns for a string: its Unicode upper-case mapping.
pub uninterp spec fn upper_of(s: Seq<char>) -> Seq<char>;

/// Relies on str::to_uppercase: the upper-case mapping of the characters, which depends on the
/// characters alone.
#[verifier::external_body]
pub(crate) fn uppercase(s: &str) -> (r: String)
    ensures
        r@ == upper_of(s@),
{
    s.to_uppercase()
}

/// A text to be spoken, by the kind of thing it names.
pub enum Synthesizable {
    Occurrence(String),
    Pattern(String),
    Raw(String),
    Staff(String),
    Vehicle(String),
}

/// The text without its leading `'0'` characters.
pub open spec fn strip_zeros(s: Seq<char>) -> Seq<char>
    decreases s.len(),
{
    if s.len() > 0 && s[0] == '0' {
        strip_zeros(s.drop_first())
    } else {
        s
    }
}

/// The text with every `S` read as its own sound rather than spelled.
pub open spec fn spell_s(s: Seq<char>) -> Seq<char>
    decreases s.len(),
{
    if s.len() == 0 {
        s
    } else if s.last() == 'S' {
        spell_s(s.drop_last()) + S_SOUND@
    } else {
        spell_s(s.drop_last()).push(s.last())
    }
}

/// The markup that a speech provider reads for each kind of text.
pub open spec fn speech_of(t: Synthesizable) -> Seq<char> {
    match t {
        Synthesizable::Occurrence(label) => SLOW_SPEECH@ + OCCURRENCE_LEAD@ + label@ + SPEECH_END@,
        Synthesizable::Pattern(label) => SLOW_SPEECH@ + label@ + SPEECH_END@,
        Synthesizable::Vehicle(label) => X_SLOW_SPEECH@ + SPELL_OPEN@ + spell_s(upper_of(label@)) + SPELL_CLOSE@
            + SPEECH_END@,
        Synthesizable::Raw(text) => text@,
        Synthesizable::Staff(label) => SLOW_SPEECH@ + strip_zeros(label@) + SPEECH_END@,
    }
}

proof fn lemma_strip_zeros_from(s: Seq<char>, i: int)
    requires
        0 <= i <= s.len(),
        forall|j: int| 0 <= j < i ==> s[j] == '0',
    ensures
        strip_zeros(s) == strip_zeros(s.subrange(i, s.len() as int)),
    decreases i,
{
    if i > 0 {
        assert(s[0] == '0');
        let t = s.drop_first();
        assert forall|j: int| 0 <= j < i - 1 implies t[j] == '0' by {
            assert(t[j] == s[j + 1]);
        }
        lemma_strip_zeros_from(t, i - 1);
        assert(t.subrange(i - 1, t.len() as int) =~= s.subrange(i, s.len() as int));
    } else {
        assert(s.subrange(0, s.len() as int) =~= s);
    }
}

/// The label without its leading zeros.
pub fn without_leading_zeros(label: &str) -> (r: String)
    ensures
        r@ == strip_zeros(label@),
{
    let n = label.unicode_len();
    let mut i: usize = 0;
    while i < n && label.get_char(i) == '0'
        invariant
            i <= n,
            n == label@.len(),
            forall|j: int| 0 <= j < i ==> label@[j] == '0',
        decreases n - i,
    {
        i = i + 1;
    }
    proof {
        lemma_strip_zeros_from(label@, i as int);
    }
    let rest = label.substring_char(i, n);
    String::from_str(rest)
}

proof fn lemma_spell_s_plain(s: Seq<char>, start: int, end: int)
    requires
        0 <= start <= end <= s.len(),
        forall|j: int| start <= j < end ==> s[j] != 'S',
    ensures
        spell_s(s.subrange(0, end)) == spell_s(s.subrange(0, start)) + s.subrange(start, end),
    decreases end - start,
{
    if end > start {
        lemma_spell_s_plain(s, start, end - 1);
        let p = s.subrange(0, end);
        assert(p.drop_last() =~= s.subrange(0, end - 1));
        assert(p.last() == s[end - 1]);
        assert(s.subrange(start, end) =~= s.subrange(start, end - 1).push(s[end - 1]));
    } else {
        assert(s.subrange(start, end) =~= Seq::<char>::empty());
    }
}

/// The text with every `S` given its own pronunciation.
pub fn with_s_sound(s: &str) -> (r: String)
    ensures
        r@ == spell_s(s@),
{
    let n = s.unicode_len();
    let mut out = String::new();
    let mut start: usize = 0;
    let mut i: usize = 0;
    assert(s@.subrange(0, 0) =~= Seq::<char>::empty());
    while i < n
        invariant
            start <= i <= n,
            n == s@.len(),
            out@ == spell_s(s@.subrange(0, start as int)),
            forall|j: int| start <= j < i ==> s@[j] != 'S',
        decreases n - i,
    {
        if s.get_char(i) == 'S' {
            proof {
                lemma_spell_s_plain(s@, start as int, i as int);
                let p = s@.subrange(0, i as int + 1);
                assert(p.drop_last() =~= s@.subrange(0, i as int));
                assert(p.last() == 'S');
            }
            let plain = s.substring_char(start, i);
            out.append(plain);
            out.append(S_SOUND);
            start = i + 1;
        }
        i = i + 1;
    }
    proof {
        lemma_spell_s_plain(s@, start as int, n as int);
        assert(s@.subrange(0, n as int) =~= s@);
    }
    let plain = s.substring_char(start, n);
    out.append(plain);
    out
}

impl Synthesizable {
    /// The markup that a speech provider reads for this text.
    pub fn to_speech(&self) -> (r: String)
        ensures
            r@ == speech_of(*self),
    {
        match self {
            Synthesizable::Occurrence(label) => {
                let mut r = String::from_str(SLOW_SPEECH);
                r.append(OCCURRENCE_LEAD);
                r.append(label.as_str());
                r.append(SPEECH_END);
                r
            },
            Synthesizable::Pattern(label) => {
                let mut r = String::from_str(SLOW_SPEECH);
                r.append(label.as_str());
                r.append(SPEECH_END);
                r
            },
            Synthesizable::Vehicle(label) => {
                let upper = uppercase(label.as_str());
                let spelled = with_s_sound(upper.as_str());
                let mut r = String::from_str(X_SLOW_SPEECH);
                r.append(SPELL_OPEN);
                r.append(spelled.as_str());
                r.append(SPELL_CLOSE);
                r.append(SPEECH_END);
                r
            },
            Synthesizable::Raw(text) => text.clone(),
            Synthesizable::Staff(label) => {
                let digits = without_leading_zeros(label.as_str());
                let mut r = String::from_str(SLOW_SPEECH);
                r.append(digits.as_str());
                r.append(SPEECH_END);
                r
            },
        }
    }
}

} // verus!
