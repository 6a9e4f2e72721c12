//! Host checks made before the tray talks to the LED: which Mac models are
//! known to carry the LED key, what the user is told about any other, and
//! whether and how the helper binary gets the rights to write to the SMC.

use vstd::prelude::*;
use vstd::string::StringExecFns;

use crate::protocol::begins_with;
use crate::text::{chars_of, range_equals};

verus! {

/// The set-user-ID bit of a Unix file mode (octal 4000).
pub const SETUID_BIT: u32 = 0o4000;

/// The alert's second button, "Open Anyway" (`NSAlertSecondButtonReturn`).
pub const ALERT_SECOND_BUTTON: isize = 1001;

/// Whether a file owned by `uid` with permission bits `mode` runs as root:
/// owned by root and carrying the set-user-ID bit.
pub fn is_setuid_root(uid: u32, mode: u32) -> (r: bool)
    ensures
        r == (uid == 0 && mode & SETUID_BIT != 0),
{
    uid == 0 && (mode & SETUID_BIT) != 0
}

/// `Macmini`, the prefix of the Intel and M1 Mac mini model names.
pub open spec fn macmini_prefix() -> Seq<char> {
    seq!['M', 'a', 'c', 'm', 'i', 'n', 'i']
}

/// The later Mac mini models, named in the `MacXX,YY` scheme: M2, M2 Pro
/// (2023), M4, M4 Pro (2024).
pub open spec fn supported_exact() -> Seq<Seq<char>> {
    seq![
        seq!['M', 'a', 'c', '1', '4', ',', '3'],
        seq!['M', 'a', 'c', '1', '4', ',', '1', '2'],
        seq!['M', 'a', 'c', '1', '6', ',', '1', '0'],
        seq!['M', 'a', 'c', '1', '6', ',', '1', '1'],
    ]
}

/// A model known to have the LED key: a `Macmini` model or one of the
/// later Mac minis.
pub open spec fn is_supported_model(model: Seq<char>) -> bool {
    begins_with(model, macmini_prefix()) || supported_exact().contains(model)
}

/// Whether `model` (as `sysctl hw.model` reports it) is known to have the
/// LED key.
pub fn is_supported_mac(model: &str) -> (r: bool)
    ensures
        r == is_supported_model(model@),
{
    let cs = chars_of(model);
    let n = cs.len();
    let ghost ex = supported_exact();
    let prefix = vec!['M', 'a', 'c', 'm', 'i', 'n', 'i'];
    assert(prefix@ =~= macmini_prefix());
    let e0 = vec!['M', 'a', 'c', '1', '4', ',', '3'];
    let e1 = vec!['M', 'a', 'c', '1', '4', ',', '1', '2'];
    let e2 = vec!['M', 'a', 'c', '1', '6', ',', '1', '0'];
    let e3 = vec!['M', 'a', 'c', '1', '6', ',', '1', '1'];
    assert(e0@ =~= ex[0] && e1@ =~= ex[1] && e2@ =~= ex[2] && e3@ =~= ex[3]);
    assert(cs@.subrange(0, n as int) =~= model@);
    let starts = n >= 7 && range_equals(&cs, 0, 7, &prefix);
    assert(starts == begins_with(model@, macmini_prefix())) by {
        if n >= 7 {
            assert(cs@.subrange(0, 7) =~= model@.take(7));
        }
    }
    let exact = range_equals(&cs, 0, n, &e0) || range_equals(&cs, 0, n, &e1) || range_equals(
        &cs,
        0,
        n,
        &e2,
    ) || range_equals(&cs, 0, n, &e3);
    assert(exact == ex.contains(model@)) by {
        if ex.contains(model@) {
            let i = choose|i: int| 0 <= i < ex.len() && ex[i] == model@;
            assert(i == 0 || i == 1 || i == 2 || i == 3);
        }
        if exact {
            if model@ == ex[0] {
                assert(ex.contains(model@));
            } else if model@ == ex[1] {
                assert(ex[1] == model@);
            } else if model@ == ex[2] {
                assert(ex[2] == model@);
            } else {
                assert(ex[3] == model@);
            }
        }
    }
    starts || exact
}

/// The name shown for a model: the model, or `unknown` when it is empty.
pub open spec fn model_display(model: Seq<char>) -> Seq<char> {
    if model.len() == 0 {
        "unknown"@
    } else {
        model
    }
}

/// The alert's informative text for an unsupported model.
pub open spec fn unsupported_text(model: Seq<char>) -> Seq<char> {
    "This model ("@ + model_display(model) + ") is not in the list of supported Macs."@
}

/// The informative text of the alert shown for a model that is not known
/// to have the LED key.
pub fn unsupported_model_message(model: &str) -> (text: String)
    ensures
        text@ == unsupported_text(model@),
{
    let mut text = String::from_str("This model (");
    if model.is_empty() {
        text.append("unknown");
    } else {
        text.append(model);
    }
    text.append(") is not in the list of supported Macs.");
    text
}

/// Whether the user chose to go on with an unsupported model: the alert's
/// second button ("Open Anyway") was pressed.
pub fn alert_continues(response: isize) -> (r: bool)
    ensures
        r == (response == ALERT_SECOND_BUTTON),
{
    response == ALERT_SECOND_BUTTON
}

/// Whether `path` holds neither a single nor a double quote.
pub open spec fn quote_free(path: Seq<char>) -> bool {
    !path.contains('\'') && !path.contains('"')
}

/// The AppleScript text that makes the helper at `path` root-owned and
/// set-user-ID, asking the user for an administrator's password.
pub open spec fn elevation_text(path: Seq<char>) -> Seq<char> {
    "do shell script \"chown root '"@ + path + "' && chmod u+s '"@ + path
        + "'\" with administrator privileges with prompt \"LED needs admin access to talk to the SMC.\""@
}

/// The script that elevates the helper at `path`, or `None` when the path
/// holds a quote: the path is put in single quotes in a shell command, and a
/// quote in it could end them.
pub fn elevation_script(path: &str) -> (r: Option<String>)
    ensures
        r is Some <==> quote_free(path@),
        r matches Some(s) ==> s@ == elevation_text(path@),
{
    let cs = chars_of(path);
    let mut i: usize = 0;
    while i < cs.len()
        invariant
            cs@ == path@,
            i <= cs@.len(),
            forall|k: int| 0 <= k < i ==> #[trigger] cs@[k] != '\'' && cs@[k] != '"',
        decreases cs@.len() - i,
    {
        if cs[i] == '\'' || cs[i] == '"' {
            assert(path@[i as int] == cs@[i as int]);
            return None;
        }
        i = i + 1;
    }
    assert(quote_free(path@)) by {
        assert forall|k: int| 0 <= k < path@.len() implies path@[k] != '\'' && path@[k] != '"' by {
            assert(cs@[k] == path@[k]);
        }
    }
    let mut s = String::from_str("do shell script \"chown root '");
    s.append(path);
    s.append("' && chmod u+s '");
    s.append(path);
    s.append(
        "'\" with administrator privileges with prompt \"LED needs admin access to talk to the SMC.\"",
    );
    Some(s)
}

/// The path stands in the shell command twice, each time as one
/// single-quoted word that it cannot close: it follows an opening quote, is
/// followed by a closing one, and holds no quote itself.
pub proof fn lemma_path_stays_quoted(path: Seq<char>)
    requires
        quote_free(path),
    ensures
        ({
            let a = "do shell script \"chown root '"@;
            let b = "' && chmod u+s '"@;
            let c = "'\" with administrator privileges with prompt \"LED needs admin access to talk to the SMC.\""@;
            &&& elevation_text(path) == a + path + b + path + c
            &&& a.last() == '\''
            &&& b[0] == '\''
            &&& b.last() == '\''
            &&& c[0] == '\''
            &&& forall|k: int| 0 <= k < path.len() ==> #[trigger] path[k] != '\''
        }),
{
    reveal_strlit("do shell script \"chown root '");
    reveal_strlit("' && chmod u+s '");
    reveal_strlit(
        "'\" with administrator privileges with prompt \"LED needs admin access to talk to the SMC.\"",
    );
    assert forall|k: int| 0 <= k < path.len() implies #[trigger] path[k] != '\'' by {
        if path[k] == '\'' {
            assert(path.contains('\''));
        }
    }
}

/// A model is supported exactly when its name begins with `Macmini` or is
/// one of `Mac14,3`, `Mac14,12`, `Mac16,10`, `Mac16,11`, and nothing else.
pub proof fn lemma_supported_models(m: Seq<char>)
    ensures
        is_supported_model(m) == (begins_with(m, seq!['M', 'a', 'c', 'm', 'i', 'n', 'i'])
            || m == seq!['M', 'a', 'c', '1', '4', ',', '3'] || m == seq![
            'M',
            'a',
            'c',
            '1',
            '4',
            ',',
            '1',
            '2',
        ] || m == seq!['M', 'a', 'c', '1', '6', ',', '1', '0'] || m == seq![
            'M',
            'a',
            'c',
            '1',
            '6',
            ',',
            '1',
            '1',
        ]),
{
    let ex = supported_exact();
    if ex.contains(m) {
        let i = choose|i: int| 0 <= i < ex.len() && ex[i] == m;
        assert(i == 0 || i == 1 || i == 2 || i == 3);
    }
    if m == ex[0] {
        assert(ex.contains(m));
    }
    if m == ex[1] {
        assert(ex.contains(m));
    }
    if m == ex[2] {
        assert(ex.contains(m));
    }
    if m == ex[3] {
        assert(ex.contains(m));
    }
}

/// The set-user-ID bit is octal 4000 (2048), and "Open Anyway" is the
/// alert's second button, 1001.
pub proof fn lemma_platform_codes(uid: u32, mode: u32)
    ensures
        SETUID_BIT == 2048,
        ALERT_SECOND_BUTTON == 1001,
        (uid == 0 && mode & SETUID_BIT != 0) == (uid == 0 && mode & 2048u32 != 0),
{
}

/// A path is refused exactly when one of its characters is a single or a
/// double quote.
pub proof fn lemma_quote_free_exactly(path: Seq<char>)
    ensures
        quote_free(path) == forall|k: int|
            0 <= k < path.len() ==> #[trigger] path[k] != '\'' && path[k] != '"',
{
    if !quote_free(path) {
        if path.contains('\'') {
            let k = choose|k: int| 0 <= k < path.len() && path[k] == '\'';
            assert(path[k] == '\'');
        } else {
            let k = choose|k: int| 0 <= k < path.len() && path[k] == '"';
            assert(path[k] == '"');
        }
    } else {
        assert forall|k: int| 0 <= k < path.len() implies #[trigger] path[k] != '\'' && path[k]
            != '"' by {
            if path[k] == '\'' {
                assert(path.contains('\''));
            }
            if path[k] == '"' {
                assert(path.contains('"'));
            }
        }
    }
}

/// The alert names the model right after `This model (`, or says `unknown`
/// when the model is empty.
pub proof fn lemma_alert_names_model(model: Seq<char>)
    ensures
        ({
            let t = unsupported_text(model);
            let shown_name = if model.len() == 0 {
                seq!['u', 'n', 'k', 'n', 'o', 'w', 'n']
            } else {
                model
            };
            &&& t.take(12) == seq!['T', 'h', 'i', 's', ' ', 'm', 'o', 'd', 'e', 'l', ' ', '(']
            &&& t.subrange(12, 12 + shown_name.len() as int) == shown_name
            &&& t[12 + shown_name.len() as int] == ')'
        }),
{
    reveal_strlit("This model (");
    reveal_strlit("unknown");
    reveal_strlit(") is not in the list of supported Macs.");
    let d = model_display(model);
    let t = unsupported_text(model);
    let a = "This model ("@;
    let c = ") is not in the list of supported Macs."@;
    assert(t =~= a + d + c);
    assert(t.take(12) =~= a);
    assert(a =~= seq!['T', 'h', 'i', 's', ' ', 'm', 'o', 'd', 'e', 'l', ' ', '(']);
    if model.len() == 0 {
        assert(d =~= seq!['u', 'n', 'k', 'n', 'o', 'w', 'n']);
    }
    assert(t.subrange(12, 12 + d.len() as int) =~= d);
    assert(t[12 + d.len() as int] == c[0]);
}

} // verus!
