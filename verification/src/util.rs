//! What several parts share: sizes as text, device paths, hints and waiting messages.

use vstd::prelude::*;
use vstd::string::*;

use crate::parse;
use crate::text;

verus! {

broadcast use vstd::slice::group_slice_axioms;

/// `value` divided by `unit`, rounded to the nearest, and a tie to the even quotient.
pub open spec fn rounded(value: nat, unit: nat) -> nat {
    let low = value / unit;
    let rest = value % unit;
    if 2 * rest > unit || (2 * rest == unit && low % 2 == 1) { low + 1 } else { low }
}

/// Smallest power of two, from `unit` on, in which `value` has at most 53 binary digits.
pub open spec fn double_unit(value: nat, unit: nat) -> nat
    decreases value / unit,
{
    if unit == 0 || value / unit < 0x20_0000_0000_0000 {
        unit
    } else {
        proof {
            lemma_halving(value, unit);
        }
        double_unit(value, 2 * unit)
    }
}

/// Twice the unit gives a smaller quotient.
pub proof fn lemma_halving(value: nat, unit: nat)
    by (nonlinear_arith)
    requires
        unit > 0,
        value / unit >= 1,
    ensures
        value / (2 * unit) < value / unit,
{
}

/// The double-precision number nearest to `value`: 53 binary digits, ties to even.
pub open spec fn nearest_double(value: nat) -> nat {
    let unit = double_unit(value, 1);
    rounded(value, unit) * unit
}

/// `bytes` in a unit, with one decimal.
pub open spec fn in_unit(bytes: nat, unit: nat, name: Seq<char>) -> Seq<char> {
    let tenths = rounded(10 * nearest_double(bytes), unit);
    text::decimal(tenths / 10) + "."@ + text::decimal(tenths % 10) + name
}

/// How a size is shown: in the largest unit that it fills, with one decimal; plain bytes below
/// one kilobyte.
pub open spec fn size_text(bytes: nat) -> Seq<char> {
    if bytes >= 0x100_0000_0000 {
        in_unit(bytes, 0x100_0000_0000, " TB"@)
    } else if bytes >= 0x4000_0000 {
        in_unit(bytes, 0x4000_0000, " GB"@)
    } else if bytes >= 0x10_0000 {
        in_unit(bytes, 0x10_0000, " MB"@)
    } else if bytes >= 0x400 {
        in_unit(bytes, 0x400, " KB"@)
    } else {
        text::decimal(bytes) + " B"@
    }
}

/// Below nine petabytes a size is a double as it stands.
pub proof fn law_small_sizes_are_exact(value: nat)
    requires
        value < 0x20_0000_0000_0000,
    ensures
        nearest_double(value) == value,
{
    assert(value / 1 == value && value % 1 == 0);
    assert(double_unit(value, 1) == 1);
    assert(rounded(value, 1) == value);
}

fn round_div(value: u128, unit: u128) -> (quotient: u128)
    requires
        0 < unit <= 0x100_0000_0000_0000,
        value <= 0x100_0000_0000_0000_0000,
    ensures
        quotient == rounded(value as nat, unit as nat),
        quotient <= value + 1,
{
    let low: u128 = value / unit;
    let rest: u128 = value % unit;
    assert(low <= value && rest < unit) by (nonlinear_arith)
        requires
            unit > 0,
            low == value / unit,
            rest == value % unit,
    ;
    if 2 * rest > unit || (2 * rest == unit && low % 2 == 1) {
        low + 1
    } else {
        low
    }
}

fn as_double(bytes: u64) -> (value: u128)
    ensures
        value == nearest_double(bytes as nat),
        value <= 0x1_0000_0000_0000_0000,
{
    let whole: u128 = bytes as u128;
    if bytes < 0x20_0000_0000_0000 {
        proof {
            law_small_sizes_are_exact(bytes as nat);
        }
        return whole;
    }
    let mut unit: u128 = 1;
    while whole / unit >= 0x20_0000_0000_0000
        invariant
            whole == bytes,
            is_small_power(unit as int),
            double_unit(bytes as nat, 1) == double_unit(bytes as nat, unit as nat),
        decreases 0x800 - unit,
    {
        proof {
            assert(unit < 0x800);
        }
        unit = unit * 2;
    }
    let quotient: u128 = round_div(whole, unit);
    assert(quotient * unit <= 0x1_0000_0000_0000_0000) by {
        lemma_rounding_stays_in_range(
            whole as int,
            unit as int,
            quotient as int,
            0x1_0000_0000_0000_0000,
        );
    }
    quotient * unit
}

/// The powers of two up to 2048.
spec fn is_small_power(unit: int) -> bool {
    unit == 1 || unit == 2 || unit == 4 || unit == 8 || unit == 16 || unit == 32 || unit == 64
        || unit == 128 || unit == 256 || unit == 512 || unit == 1024 || unit == 2048
}

/// Rounding to a unit that divides the range does not leave it.
proof fn lemma_rounding_stays_in_range(whole: int, unit: int, quotient: int, range: int)
    requires
        0 <= whole < range,
        0 < unit,
        range % unit == 0,
        quotient == rounded(whole as nat, unit as nat),
    ensures
        0 <= quotient * unit <= range,
{
    let low = whole / unit;
    let cap = range / unit;
    vstd::arithmetic::div_mod::lemma_fundamental_div_mod(whole, unit);
    vstd::arithmetic::div_mod::lemma_fundamental_div_mod(range, unit);
    vstd::arithmetic::div_mod::lemma_div_pos_is_pos(whole, unit);
    assert(low < cap) by (nonlinear_arith)
        requires
            unit * low < unit * cap,
            0 < unit,
    ;
    assert(0 <= quotient * unit <= unit * cap) by (nonlinear_arith)
        requires
            0 <= quotient <= cap,
            0 < unit,
    ;
}

fn push_in_unit(shown: &mut String, bytes: u64, unit: u128, name: &str)
    requires
        0 < unit <= 0x100_0000_0000,
        0x400 <= unit,
    ensures
        final(shown)@ == old(shown)@ + in_unit(bytes as nat, unit as nat, name@),
{
    let tenths: u128 = round_div(10 * as_double(bytes), unit);
    assert(tenths <= u64::MAX) by (nonlinear_arith)
        requires
            tenths == rounded((10 * nearest_double(bytes as nat)) as nat, unit as nat),
            nearest_double(bytes as nat) <= 0x1_0000_0000_0000_0000,
            0x400 <= unit,
    ;
    let tenths: u64 = tenths as u64;
    text::push_decimal(shown, tenths / 10);
    shown.append(".");
    text::push_decimal(shown, tenths % 10);
    shown.append(name);
    assert(shown@ =~= old(shown)@ + in_unit(bytes as nat, unit as nat, name@));
}

/// Shows a size, as in `14.5 GB`, `488.3 KB` or `120 B`.
pub fn format_size(bytes: u64) -> (shown: String)
    ensures
        shown@ == size_text(bytes as nat),
{
    let mut shown = String::new();
    if bytes >= 0x100_0000_0000 {
        push_in_unit(&mut shown, bytes, 0x100_0000_0000, " TB");
    } else if bytes >= 0x4000_0000 {
        push_in_unit(&mut shown, bytes, 0x4000_0000, " GB");
    } else if bytes >= 0x10_0000 {
        push_in_unit(&mut shown, bytes, 0x10_0000, " MB");
    } else if bytes >= 0x400 {
        push_in_unit(&mut shown, bytes, 0x400, " KB");
    } else {
        text::push_decimal(&mut shown, bytes);
        shown.append(" B");
    }
    assert(shown@ =~= size_text(bytes as nat));
    shown
}

/// A path with every slash turned into a backslash.
pub open spec fn with_backslashes(path: Seq<char>) -> Seq<char> {
    path.map_values(|c: char| if c == '/' { '\\' } else { c })
}

/// The path names a raw device: under `/dev/`, or in one of the device name spaces of Windows,
/// which takes both kinds of slash.
pub open spec fn names_device(path: Seq<char>) -> bool {
    ||| text::is_prefix("/dev/"@, path)
    ||| text::is_prefix("\\\\.\\"@, with_backslashes(path))
    ||| text::is_prefix("\\\\?\\"@, with_backslashes(path))
}

/// Whether a path names a raw device. Writing there would overwrite a whole disk, so a doubtful
/// path counts as a device.
pub fn is_physical_device(path: &str) -> (yes: bool)
    ensures
        yes == names_device(path@),
{
    if text::starts_with(path, "/dev/") {
        return true;
    }
    let letters = text::letters(path);
    let mut turned = String::new();
    let mut i: usize = 0;
    while i < letters.len()
        invariant
            i <= letters@.len(),
            letters@ == path@,
            turned@ =~= with_backslashes(path@).take(i as int),
        decreases letters@.len() - i,
    {
        turned.push(if letters[i] == '/' { '\\' } else { letters[i] });
        i = i + 1;
    }
    assert(turned@ =~= with_backslashes(path@));
    text::starts_with(turned.as_str(), "\\\\.\\") || text::starts_with(
        turned.as_str(),
        "\\\\?\\",
    )
}

/// Kind of a system error, as far as it has a hint of its own.
#[derive(Debug, Clone, Copy, PartialEq, Eq, Structural)]
pub enum IoErrorKind {
    PermissionDenied,
    NotFound,
    TimedOut,
    Interrupted,
    Other,
}

/// The hint for a kind of system error.
pub open spec fn hint_for(kind: IoErrorKind) -> Option<Seq<char>> {
    match kind {
        IoErrorKind::PermissionDenied => Some(
            "  🔒 No tienes permisos suficientes para acceder a ese disco o archivo. Si es un disco físico, ejecuta el programa como Administrador (Windows) o con sudo (Linux/macOS)."@,
        ),
        IoErrorKind::NotFound => Some(
            "  🔍 No se encontró la ruta indicada. Verifica que el disco/USB siga conectado y que la ruta esté bien escrita."@,
        ),
        IoErrorKind::TimedOut | IoErrorKind::Interrupted => Some(
            "  ⏱️  El dispositivo tardó demasiado en responder. Puede estar desconectado o dañado — prueba reconectarlo."@,
        ),
        IoErrorKind::Other => None,
    }
}

/// The first system error among the causes, outermost first.
pub open spec fn first_io_error(causes: Seq<Option<IoErrorKind>>) -> Option<IoErrorKind>
    decreases causes.len(),
{
    if causes.len() == 0 {
        None
    } else if causes[0] is Some {
        causes[0]
    } else {
        first_io_error(causes.skip(1))
    }
}

/// A hint in plain words for an error. `causes` is the chain of its causes, outermost first, each
/// with its kind where it is a system error. The first system error decides.
pub fn friendly_error_hint(causes: &[Option<IoErrorKind>]) -> (hint: Option<&'static str>)
    ensures
        match first_io_error(causes@) {
            None => hint is None,
            Some(kind) => match hint_for(kind) {
                None => hint is None,
                Some(words) => hint is Some && hint->0@ == words,
            },
        },
{
    let mut i: usize = 0;
    assert(causes@.skip(0) =~= causes@);
    while i < causes.len()
        invariant
            i <= causes@.len(),
            first_io_error(causes@) == first_io_error(causes@.skip(i as int)),
        decreases causes@.len() - i,
    {
        assert(causes@.skip(i as int).skip(1) =~= causes@.skip(i as int + 1));
        if let Some(kind) = causes[i] {
            return match kind {
                IoErrorKind::PermissionDenied => Some(
                    "  🔒 No tienes permisos suficientes para acceder a ese disco o archivo. Si es un disco físico, ejecuta el programa como Administrador (Windows) o con sudo (Linux/macOS).",
                ),
                IoErrorKind::NotFound => Some(
                    "  🔍 No se encontró la ruta indicada. Verifica que el disco/USB siga conectado y que la ruta esté bien escrita.",
                ),
                IoErrorKind::TimedOut | IoErrorKind::Interrupted => Some(
                    "  ⏱️  El dispositivo tardó demasiado en responder. Puede estar desconectado o dañado — prueba reconectarlo.",
                ),
                IoErrorKind::Other => None,
            };
        }
        i = i + 1;
    }
    None
}

/// How many waiting messages there are.
pub const WAIT_MESSAGE_COUNT: u64 = 6;

/// Seconds after which the waiting message changes.
pub const ROTATE_SECS: u64 = 8;

/// The waiting messages, in turn.
pub open spec fn wait_message(turn: int) -> Seq<char> {
    if turn == 0 {
        "☕ Estos escaneos son bastante tardados, así que te recomendamos ir por un café o echarte un sueñito en lo que nosotros chambeamos. 👻💤"@
    } else if turn == 1 {
        "Voy revisando pedacito por pedacito. Tranquilo, no me apuro con tus recuerdos. 👻"@
    } else if turn == 2 {
        "Mientras más grande el disco, más me tardo. Aprovecha y estira las piernas."@
    } else if turn == 3 {
        "Puedes usar la compu normalmente, yo sigo trabajando aquí atrás."@
    } else if turn == 4 {
        "No apagues ni desconectes la memoria mientras trabajo, porfa. 👻"@
    } else {
        "Buscando entre lo que creías perdido… para esto nací. Bueno, morí. 👻"@
    }
}

/// The waiting message after so many seconds.
pub open spec fn wait_message_after(secs: int) -> Seq<char> {
    wait_message((secs / 8) % 6)
}

/// A waiting message stays for eight seconds, the next one is another, and after all six the first one
/// comes again.
pub proof fn law_waiting_messages_take_turns(turn: int, secs: int)
    requires
        0 <= turn,
        0 <= secs < 8,
    ensures
        wait_message_after(8 * turn + secs) == wait_message_after(8 * turn),
        wait_message_after(8 * (turn + 6)) == wait_message_after(8 * turn),
        forall|later: int|
            turn < later < turn + 6 ==> #[trigger] wait_message_after(8 * later) != wait_message_after(
                8 * turn,
            ),
{
    assert((8 * turn + secs) / 8 == turn && (8 * turn) / 8 == turn);
    assert((8 * (turn + 6)) / 8 == turn + 6);
    assert forall|later: int| turn < later < turn + 6 implies #[trigger] wait_message_after(8 * later)
        != wait_message_after(8 * turn) by {
        assert((8 * later) / 8 == later);
        lemma_messages_differ(later % 6, turn % 6);
    }
}

proof fn lemma_messages_differ(a: int, b: int)
    requires
        0 <= a < 6,
        0 <= b < 6,
        a != b,
    ensures
        wait_message(a) != wait_message(b),
{
    reveal_strlit(
        "☕ Estos escaneos son bastante tardados, así que te recomendamos ir por un café o echarte un sueñito en lo que nosotros chambeamos. 👻💤",
    );
    reveal_strlit(
        "Voy revisando pedacito por pedacito. Tranquilo, no me apuro con tus recuerdos. 👻",
    );
    reveal_strlit("Mientras más grande el disco, más me tardo. Aprovecha y estira las piernas.");
    reveal_strlit("Puedes usar la compu normalmente, yo sigo trabajando aquí atrás.");
    reveal_strlit("No apagues ni desconectes la memoria mientras trabajo, porfa. 👻");
    reveal_strlit("Buscando entre lo que creías perdido… para esto nací. Bueno, morí. 👻");
    assert(wait_message(0)[0] == '☕' && wait_message(1)[0] == 'V' && wait_message(2)[0] == 'M');
    assert(wait_message(3)[0] == 'P' && wait_message(4)[0] == 'N' && wait_message(5)[0] == 'B');
}

/// The waiting message after so many seconds: every eight seconds the next one, over and over.
pub fn wait_message_at(secs: u64) -> (words: &'static str)
    ensures
        words@ == wait_message((secs / 8) as int % 6),
        words@ == wait_message_after(secs as int),
{
    let turn: u64 = (secs / ROTATE_SECS) % WAIT_MESSAGE_COUNT;
    match turn {
        0 => "☕ Estos escaneos son bastante tardados, así que te recomendamos ir por un café o echarte un sueñito en lo que nosotros chambeamos. 👻💤",
        1 => "Voy revisando pedacito por pedacito. Tranquilo, no me apuro con tus recuerdos. 👻",
        2 => "Mientras más grande el disco, más me tardo. Aprovecha y estira las piernas.",
        3 => "Puedes usar la compu normalmente, yo sigo trabajando aquí atrás.",
        4 => "No apagues ni desconectes la memoria mientras trabajo, porfa. 👻",
        _ => "Buscando entre lo que creías perdido… para esto nací. Bueno, morí. 👻",
    }
}

/// Below one kilobyte a size is shown in bytes.
pub proof fn law_small_sizes_are_shown_in_bytes(bytes: nat)
    requires
        bytes < 1024,
    ensures
        exists|digits: Seq<char>|
            size_text(bytes) == #[trigger] (digits + " B"@) && parse::number_in(digits, 1023) == Some(
                bytes,
            ),
{
    parse::law_written_numbers_are_read_back(bytes, 1023);
    let digits = text::decimal(bytes);
    assert(size_text(bytes) == digits + " B"@);
}

/// From one kilobyte on a size is shown in the largest unit that it fills, each unit being 1024 of
/// the one before. It is shown with one decimal: no number of tenths is nearer to it, and of two that
/// are equally near it is the even one.
pub proof fn law_sizes_are_shown_to_the_nearest_tenth(bytes: nat, unit: nat, name: Seq<char>)
    requires
        ({
            ||| unit == 1024 && name == " KB"@ && bytes < 1_048_576
            ||| unit == 1_048_576 && name == " MB"@ && bytes < 1_073_741_824
            ||| unit == 1_073_741_824 && name == " GB"@ && bytes < 1_099_511_627_776
            ||| unit == 1_099_511_627_776 && name == " TB"@ && bytes < 9_007_199_254_740_992
        }),
        unit <= bytes,
    ensures
        exists|whole: nat, tenth: nat|
            size_text(bytes) == #[trigger] text::decimal(whole) + "."@ + #[trigger] text::decimal(
                tenth,
            ) + name && tenth < 10 && {
                let off = 10 * bytes - (10 * whole + tenth) * unit;
                -unit <= 2 * off <= unit && (2 * off == unit || 2 * off == -unit ==> tenth % 2 == 0)
            },
{
    law_small_sizes_are_exact(bytes);
    let tenths = rounded(10 * bytes, unit);
    let (whole, tenth) = (tenths / 10, tenths % 10);
    assert(10 * whole + tenth == tenths);
    lemma_rounded_is_nearest(10 * bytes, unit);
    assert(tenth % 2 == tenths % 2);
    assert(size_text(bytes) == text::decimal(whole) + "."@ + text::decimal(tenth) + name);
}

proof fn lemma_rounded_is_nearest(value: nat, unit: nat)
    requires
        unit > 0,
    ensures
        ({
            let off = value - rounded(value, unit) * unit;
            -unit <= 2 * off <= unit && (2 * off == unit || 2 * off == -unit ==> rounded(value, unit)
                % 2 == 0)
        }),
{
    let (low, rest) = (value / unit, value % unit);
    vstd::arithmetic::div_mod::lemma_fundamental_div_mod(value as int, unit as int);
    vstd::arithmetic::div_mod::lemma_mod_bound(value as int, unit as int);
    assert(unit * low == low * unit && (low + 1) * unit == low * unit + unit) by (nonlinear_arith);
}

/// Larger sizes are first rounded to a whole number of a power of two, as many of them as a double
/// can count: never off by more than half of it.
pub proof fn law_doubles_are_near(value: nat)
    ensures
        ({
            let unit = double_unit(value, 1);
            let off = value - nearest_double(value);
            &&& unit >= 1
            &&& value / unit < 9_007_199_254_740_992
            &&& -unit <= 2 * off <= unit
            &&& unit > 1 ==> unit % 2 == 0 && value / ((unit / 2) as nat) >= 9_007_199_254_740_992
        }),
{
    lemma_double_unit(value, 1);
    lemma_rounded_is_nearest(value, double_unit(value, 1));
}

proof fn lemma_double_unit(value: nat, unit: nat)
    requires
        unit >= 1,
    ensures
        ({
            let found = double_unit(value, unit);
            &&& found >= unit
            &&& value / found < 9_007_199_254_740_992
            &&& found > unit ==> found % 2 == 0 && value / ((found / 2) as nat)
                >= 9_007_199_254_740_992
        }),
    decreases value / unit,
{
    if value / unit >= 0x20_0000_0000_0000 {
        lemma_halving(value, unit);
        lemma_double_unit(value, 2 * unit);
        let found = double_unit(value, unit);
        if found == 2 * unit {
            assert(found / 2 == unit);
        }
    }
}

/// A device is named by a path under `/dev/`, or by one that starts with two slashes of either kind,
/// a dot or a question mark, and another slash. Nothing else names a device.
pub proof fn law_devices_are_named_by_their_first_letters(path: Seq<char>)
    ensures
        names_device(path) == {
            ||| path.len() >= 5 && path[0] == '/' && path[1] == 'd' && path[2] == 'e' && path[3]
                == 'v' && path[4] == '/'
            ||| path.len() >= 4 && (path[0] == '/' || path[0] == '\\') && (path[1] == '/' || path[1]
                == '\\') && (path[2] == '.' || path[2] == '?') && (path[3] == '/' || path[3]
                == '\\')
        },
{
    reveal_strlit("/dev/");
    reveal_strlit("\\\\.\\");
    reveal_strlit("\\\\?\\");
    let turned = with_backslashes(path);
    let (unix, dot, mark) = ("/dev/"@, "\\\\.\\"@, "\\\\?\\"@);
    assert(unix.len() == 5 && dot.len() == 4 && mark.len() == 4);
    assert(unix[0] == '/' && unix[1] == 'd' && unix[2] == 'e' && unix[3] == 'v' && unix[4] == '/');
    assert(dot[0] == '\\' && dot[1] == '\\' && dot[2] == '.' && dot[3] == '\\');
    assert(mark[0] == '\\' && mark[1] == '\\' && mark[2] == '?' && mark[3] == '\\');
    if path.len() >= 5 {
        let head = path.take(5);
        if head == unix {
            assert(head[0] == path[0] && head[1] == path[1] && head[2] == path[2] && head[3]
                == path[3] && head[4] == path[4]);
        } else {
            assert(!(head =~= unix));
        }
    }
    if path.len() >= 4 {
        let head = turned.take(4);
        assert(head[0] == turned[0] && head[1] == turned[1] && head[2] == turned[2] && head[3]
            == turned[3]);
        if head != dot {
            assert(!(head =~= dot));
        }
        if head != mark {
            assert(!(head =~= mark));
        }
    }
}

/// The outermost system error decides on the hint, however many other causes stand before it, and
/// where there is no system error there is no hint.
pub proof fn law_the_first_system_error_decides(causes: Seq<Option<IoErrorKind>>, i: int)
    requires
        0 <= i <= causes.len(),
        forall|k: int| 0 <= k < i ==> #[trigger] causes[k] is None,
    ensures
        i < causes.len() && causes[i] is Some ==> first_io_error(causes) == causes[i],
        i == causes.len() ==> first_io_error(causes) is None,
    decreases i,
{
    if i > 0 {
        let rest = causes.skip(1);
        assert forall|k: int| 0 <= k < i - 1 implies #[trigger] rest[k] is None by {
            assert(rest[k] == causes[k + 1]);
        }
        law_the_first_system_error_decides(rest, i - 1);
        assert(causes[0] is None);
        if i < causes.len() {
            assert(rest[i - 1] == causes[i]);
        }
    }
}

} // verus!
