//! The encoders: prefix, suffix and minimal-transition escape sequences.

use vstd::prelude::*;

use crate::codes::CodeFormat;
use crate::codes::attr_code_chars;
use crate::codes::background_code_chars;
use crate::codes::dec_chars;
use crate::codes::digit_char;
use crate::codes::foreground_code_chars;
use crate::codes::frag_if;
use crate::codes::infix_chars;
use crate::codes::join_codes;
use crate::codes::prefix_chars;
use crate::codes::removes_any;
use crate::codes::reset_chars;
use crate::codes::sequence_start_chars;
use crate::codes::style_code_frags;
use crate::codes::suffix_chars;
use crate::codes::update_style;
use crate::style::Color;
use crate::style::Style;
use crate::write::AnyWrite;
use crate::write::SinkError;
use crate::write::StringSink;
use crate::write::lemma_partial_widen;
use crate::write::lemma_unchanged_partial;
use crate::write::lemma_wrote_partial;
use crate::write::lemma_wrote_wrote;
use crate::write::partial;
use crate::write::unchanged;
use crate::write::wrote;

verus! {

/// Writes the full reset sequence `ESC[0m`.
fn write_reset<W: AnyWrite>(f: &mut W) -> (r: Result<(), SinkError>)
    ensures
        r is Ok <==> old(f).fits(reset_chars().len()),
        r is Ok ==> wrote(*old(f), *final(f), reset_chars()),
        r is Err ==> unchanged(*old(f), *final(f)),
{
    proof {
        reveal_strlit("\x1B[0m");
        assert("\x1B[0m"@ =~= reset_chars());
        assert(vstd::string::is_ascii("\x1B[0m"));
    }
    f.write_str("\x1B[0m")
}

/// Writes the sequence-start token `ESC[`.
fn write_sequence_start<W: AnyWrite>(f: &mut W) -> (r: Result<(), SinkError>)
    ensures
        r is Ok <==> old(f).fits(sequence_start_chars().len()),
        r is Ok ==> wrote(*old(f), *final(f), sequence_start_chars()),
        r is Err ==> unchanged(*old(f), *final(f)),
{
    proof {
        reveal_strlit("\x1B[");
        assert("\x1B["@ =~= sequence_start_chars());
        assert(vstd::string::is_ascii("\x1B["));
    }
    f.write_str("\x1B[")
}

/// Writes the sequence-end token `m`.
fn write_sequence_end<W: AnyWrite>(f: &mut W) -> (r: Result<(), SinkError>)
    ensures
        r is Ok <==> old(f).fits(1),
        r is Ok ==> wrote(*old(f), *final(f), seq!['m']),
        r is Err ==> unchanged(*old(f), *final(f)),
{
    proof {
        reveal_strlit("m");
        assert("m"@ =~= seq!['m']);
        assert(vstd::string::is_ascii("m"));
    }
    f.write_str("m")
}

/// Writes the separator between two codes.
fn write_separator<W: AnyWrite>(f: &mut W) -> (r: Result<(), SinkError>)
    ensures
        r is Ok <==> old(f).fits(1),
        r is Ok ==> wrote(*old(f), *final(f), seq![';']),
        r is Err ==> unchanged(*old(f), *final(f)),
{
    proof {
        reveal_strlit(";");
        assert(";"@ =~= seq![';']);
        assert(vstd::string::is_ascii(";"));
    }
    f.write_str(";")
}

/// The one-character string of a decimal digit.
fn digit_str(d: u8) -> (s: &'static str)
    requires
        d < 10,
    ensures
        s.is_ascii(),
        s@ == seq![digit_char(d as nat)],
{
    proof {
        reveal_strlit("0");
        reveal_strlit("1");
        reveal_strlit("2");
        reveal_strlit("3");
        reveal_strlit("4");
        reveal_strlit("5");
        reveal_strlit("6");
        reveal_strlit("7");
        reveal_strlit("8");
        reveal_strlit("9");
    }
    match d {
        0 => "0",
        1 => "1",
        2 => "2",
        3 => "3",
        4 => "4",
        5 => "5",
        6 => "6",
        7 => "7",
        8 => "8",
        _ => "9",
    }
}

/// Writes `n` in decimal, most significant digit first, no leading zeros.
fn write_dec<W: AnyWrite>(f: &mut W, n: u8) -> (r: Result<(), SinkError>)
    ensures
        r is Ok <==> old(f).fits(dec_chars(n as nat).len()),
        r is Ok ==> wrote(*old(f), *final(f), dec_chars(n as nat)),
        r is Err ==> partial(*old(f), *final(f), dec_chars(n as nat)),
{
    let ghost out = dec_chars(n as nat);
    if n < 10 {
        let r = f.write_str(digit_str(n));
        proof {
            if r is Err {
                lemma_unchanged_partial(*old(f), *f, out);
            }
        }
        r
    } else if n < 100 {
        proof {
            assert(dec_chars(n as nat) == dec_chars(n as nat / 10) + seq![
                digit_char(n as nat % 10),
            ]);
            assert(dec_chars(n as nat / 10) == seq![digit_char(n as nat / 10)]);
            assert(out =~= seq![digit_char((n / 10) as nat), digit_char((n % 10) as nat)]);
        }
        match f.write_str(digit_str(n / 10)) {
            Err(e) => {
                proof {
                    W::lemma_fits(*old(f), 1, out.len());
                    lemma_unchanged_partial(*old(f), *f, out);
                }
                Err(e)
            },
            Ok(_) => {
                let ghost mid = *f;
                let r = f.write_str(digit_str(n % 10));
                proof {
                    if r is Ok {
                        lemma_wrote_wrote(
                            *old(f),
                            mid,
                            *f,
                            seq![digit_char((n / 10) as nat)],
                            seq![digit_char((n % 10) as nat)],
                        );
                    } else {
                        assert(f.contents() =~= old(f).contents() + out.subrange(0, 1));
                    }
                }
                r
            },
        }
    } else {
        proof {
            assert(n as nat / 10 / 10 == n as nat / 100) by (nonlinear_arith);
            assert(dec_chars(n as nat) == dec_chars(n as nat / 10) + seq![
                digit_char(n as nat % 10),
            ]);
            assert(n as nat / 10 >= 10);
            assert(dec_chars(n as nat / 10) == dec_chars(n as nat / 10 / 10) + seq![
                digit_char(n as nat / 10 % 10),
            ]);
            assert(dec_chars(n as nat / 100) == seq![digit_char(n as nat / 100)]);
            assert(out =~= seq![
                digit_char((n / 100) as nat),
                digit_char((n / 10 % 10) as nat),
                digit_char((n % 10) as nat),
            ]);
        }
        match f.write_str(digit_str(n / 100)) {
            Err(e) => {
                proof {
                    W::lemma_fits(*old(f), 1, out.len());
                    lemma_unchanged_partial(*old(f), *f, out);
                }
                Err(e)
            },
            Ok(_) => {
                let ghost mid1 = *f;
                match f.write_str(digit_str(n / 10 % 10)) {
                    Err(e) => {
                        proof {
                            W::lemma_fits(*old(f), 2, out.len());
                            assert(f.contents() =~= old(f).contents() + out.subrange(0, 1));
                        }
                        Err(e)
                    },
                    Ok(_) => {
                        let ghost mid2 = *f;
                        let r = f.write_str(digit_str(n % 10));
                        proof {
                            lemma_wrote_wrote(
                                *old(f),
                                mid1,
                                mid2,
                                seq![digit_char((n / 100) as nat)],
                                seq![digit_char((n / 10 % 10) as nat)],
                            );
                            assert(seq![digit_char((n / 100) as nat)] + seq![
                                digit_char((n / 10 % 10) as nat),
                            ] =~= seq![
                                digit_char((n / 100) as nat),
                                digit_char((n / 10 % 10) as nat),
                            ]);
                            if r is Ok {
                                lemma_wrote_wrote(
                                    *old(f),
                                    mid2,
                                    *f,
                                    seq![
                                        digit_char((n / 100) as nat),
                                        digit_char((n / 10 % 10) as nat),
                                    ],
                                    seq![digit_char((n % 10) as nat)],
                                );
                            } else {
                                assert(f.contents() =~= old(f).contents() + out.subrange(0, 2));
                            }
                        }
                        r
                    },
                }
            },
        }
    }
}

/// Writes a separator followed by `v` in decimal.
fn write_sep_dec<W: AnyWrite>(f: &mut W, v: u8) -> (r: Result<(), SinkError>)
    ensures
        r is Ok <==> old(f).fits(1 + dec_chars(v as nat).len()),
        r is Ok ==> wrote(*old(f), *final(f), seq![';'] + dec_chars(v as nat)),
        r is Err ==> partial(*old(f), *final(f), seq![';'] + dec_chars(v as nat)),
{
    let ghost out = seq![';'] + dec_chars(v as nat);
    match write_separator(f) {
        Err(e) => {
            proof {
                W::lemma_fits(*old(f), 1, out.len());
                lemma_unchanged_partial(*old(f), *f, out);
            }
            Err(e)
        },
        Ok(_) => {
            let ghost mid = *f;
            let r = write_dec(f, v);
            proof {
                if r is Ok {
                    lemma_wrote_wrote(*old(f), mid, *f, seq![';'], dec_chars(v as nat));
                } else {
                    lemma_wrote_partial(*old(f), mid, *f, seq![';'], dec_chars(v as nat));
                }
            }
            r
        },
    }
}

/// The fixed code fragment of a named foreground color.
fn named_foreground_str(c: Color) -> (s: &'static str)
    requires
        !(c is Fixed),
        !(c is Rgb),
    ensures
        s.is_ascii(),
        s@ == foreground_code_chars(c),
{
    proof {
        reveal_strlit("30");
        reveal_strlit("31");
        reveal_strlit("32");
        reveal_strlit("33");
        reveal_strlit("34");
        reveal_strlit("35");
        reveal_strlit("36");
        reveal_strlit("37");
        reveal_strlit("39");
        reveal_strlit("90");
        reveal_strlit("91");
        reveal_strlit("92");
        reveal_strlit("93");
        reveal_strlit("94");
        reveal_strlit("95");
        reveal_strlit("96");
        reveal_strlit("97");
    }
    match c {
        Color::Black => "30",
        Color::Red => "31",
        Color::Green => "32",
        Color::Yellow => "33",
        Color::Blue => "34",
        Color::Purple => "35",
        Color::Magenta => "35",
        Color::Cyan => "36",
        Color::White => "37",
        Color::Default => "39",
        Color::DarkGray => "90",
        Color::LightRed => "91",
        Color::LightGreen => "92",
        Color::LightYellow => "93",
        Color::LightBlue => "94",
        Color::LightPurple => "95",
        Color::LightMagenta => "95",
        Color::LightCyan => "96",
        Color::LightGray => "97",
        _ => unreached(),
    }
}

/// The fixed code fragment of a named background color.
fn named_background_str(c: Color) -> (s: &'static str)
    requires
        !(c is Fixed),
        !(c is Rgb),
    ensures
        s.is_ascii(),
        s@ == background_code_chars(c),
{
    proof {
        reveal_strlit("40");
        reveal_strlit("41");
        reveal_strlit("42");
        reveal_strlit("43");
        reveal_strlit("44");
        reveal_strlit("45");
        reveal_strlit("46");
        reveal_strlit("47");
        reveal_strlit("49");
        reveal_strlit("100");
        reveal_strlit("101");
        reveal_strlit("102");
        reveal_strlit("103");
        reveal_strlit("104");
        reveal_strlit("105");
        reveal_strlit("106");
        reveal_strlit("107");
    }
    match c {
        Color::Black => "40",
        Color::Red => "41",
        Color::Green => "42",
        Color::Yellow => "43",
        Color::Blue => "44",
        Color::Purple => "45",
        Color::Magenta => "45",
        Color::Cyan => "46",
        Color::White => "47",
        Color::Default => "49",
        Color::DarkGray => "100",
        Color::LightRed => "101",
        Color::LightGreen => "102",
        Color::LightYellow => "103",
        Color::LightBlue => "104",
        Color::LightPurple => "105",
        Color::LightMagenta => "105",
        Color::LightCyan => "106",
        Color::LightGray => "107",
        _ => unreached(),
    }
}

/// One entry of a prefix's code list: a boolean attribute's code, a
/// background color or a foreground color.
#[derive(Clone, Copy)]
enum CodeFrag {
    Attr(u8),
    Bg(Color),
    Fg(Color),
}

/// The characters one code-list entry stands for.
spec fn frag_chars(cf: CodeFrag, format: CodeFormat) -> Seq<char> {
    match cf {
        CodeFrag::Attr(code) => attr_code_chars(code as nat, format),
        CodeFrag::Bg(c) => background_code_chars(c),
        CodeFrag::Fg(c) => foreground_code_chars(c),
    }
}

/// The characters of each entry of a code list.
spec fn frags_of(list: Seq<CodeFrag>, format: CodeFormat) -> Seq<Seq<char>> {
    list.map_values(|cf: CodeFrag| frag_chars(cf, format))
}

/// An attribute entry carries a code from `1` to `9`.
spec fn wf_frag(cf: CodeFrag) -> bool {
    match cf {
        CodeFrag::Attr(code) => 1 <= code <= 9,
        CodeFrag::Bg(_) => true,
        CodeFrag::Fg(_) => true,
    }
}

/// The two-character zero-padded string of a nonzero decimal digit.
fn padded_digit_str(d: u8) -> (s: &'static str)
    requires
        1 <= d <= 9,
    ensures
        s.is_ascii(),
        s@ == seq!['0', digit_char(d as nat)],
{
    proof {
        reveal_strlit("01");
        reveal_strlit("02");
        reveal_strlit("03");
        reveal_strlit("04");
        reveal_strlit("05");
        reveal_strlit("06");
        reveal_strlit("07");
        reveal_strlit("08");
        reveal_strlit("09");
    }
    match d {
        1 => "01",
        2 => "02",
        3 => "03",
        4 => "04",
        5 => "05",
        6 => "06",
        7 => "07",
        8 => "08",
        _ => "09",
    }
}

/// Writes one boolean attribute's code in the requested format.
fn write_attr_code<W: AnyWrite>(f: &mut W, code: u8, format: CodeFormat) -> (r: Result<
    (),
    SinkError,
>)
    requires
        1 <= code <= 9,
    ensures
        r is Ok <==> old(f).fits(attr_code_chars(code as nat, format).len()),
        r is Ok ==> wrote(*old(f), *final(f), attr_code_chars(code as nat, format)),
        r is Err ==> unchanged(*old(f), *final(f)),
{
    match format {
        CodeFormat::Standard => f.write_str(digit_str(code)),
        CodeFormat::ZeroPadded => f.write_str(padded_digit_str(code)),
    }
}

/// Writes one code-list entry.
fn write_frag<W: AnyWrite>(f: &mut W, cf: CodeFrag, format: CodeFormat) -> (r: Result<
    (),
    SinkError,
>)
    requires
        wf_frag(cf),
    ensures
        r is Ok <==> old(f).fits(frag_chars(cf, format).len()),
        r is Ok ==> wrote(*old(f), *final(f), frag_chars(cf, format)),
        r is Err ==> partial(*old(f), *final(f), frag_chars(cf, format)),
{
    match cf {
        CodeFrag::Attr(code) => {
            let r = write_attr_code(f, code, format);
            proof {
                if r is Err {
                    lemma_unchanged_partial(*old(f), *f, frag_chars(cf, format));
                }
            }
            r
        },
        CodeFrag::Bg(c) => c.write_background_code(f),
        CodeFrag::Fg(c) => c.write_foreground_code(f),
    }
}

/// Writes the entries of `codes` from position `i` on, separated by
/// separators.
fn write_code_list<W: AnyWrite>(
    f: &mut W,
    codes: &Vec<CodeFrag>,
    i: usize,
    format: CodeFormat,
) -> (r: Result<(), SinkError>)
    requires
        i <= codes@.len(),
        forall|k: int| 0 <= k < codes@.len() ==> wf_frag(#[trigger] codes@[k]),
    ensures
        r is Ok <==> old(f).fits(join_codes(frags_of(codes@, format).skip(i as int)).len()),
        r is Ok ==> wrote(*old(f), *final(f), join_codes(frags_of(codes@, format).skip(i as int))),
        r is Err ==> partial(
            *old(f),
            *final(f),
            join_codes(frags_of(codes@, format).skip(i as int)),
        ),
    decreases codes@.len() - i,
{
    let ghost rest = frags_of(codes@, format).skip(i as int);
    let ghost out = join_codes(rest);
    if i == codes.len() {
        proof {
            W::lemma_fits(*old(f), 0, 0);
            assert(rest.len() == 0);
            assert(old(f).contents() + out =~= old(f).contents());
            assert(wrote(*old(f), *f, out));
        }
        return Ok(());
    }
    let cf = codes[i];
    let ghost a1 = frag_chars(cf, format);
    proof {
        assert(rest[0] == a1);
    }
    if i + 1 == codes.len() {
        proof {
            assert(rest.len() == 1);
            assert(out == a1);
        }
        write_frag(f, cf, format)
    } else {
        proof {
            assert(rest.len() >= 2);
            assert(rest.drop_first() =~= frags_of(codes@, format).skip(i as int + 1));
            assert(out == a1 + seq![';'] + join_codes(rest.drop_first()));
        }
        let ghost tail = join_codes(rest.drop_first());
        match write_frag(f, cf, format) {
            Err(e) => {
                proof {
                    W::lemma_fits(*old(f), a1.len(), out.len());
                    assert(a1 =~= out.subrange(0, a1.len() as int));
                    lemma_partial_widen(*old(f), *f, a1, out);
                }
                Err(e)
            },
            Ok(_) => {
                let ghost w1 = *f;
                match write_separator(f) {
                    Err(e) => {
                        proof {
                            W::lemma_fits(*old(f), a1.len() + 1, out.len());
                            lemma_unchanged_partial(w1, *f, seq![';']);
                            lemma_wrote_partial(*old(f), w1, *f, a1, seq![';']);
                            assert(a1 + seq![';'] =~= out.subrange(0, a1.len() as int + 1));
                            lemma_partial_widen(*old(f), *f, a1 + seq![';'], out);
                        }
                        Err(e)
                    },
                    Ok(_) => {
                        proof {
                            lemma_wrote_wrote(*old(f), w1, *f, a1, seq![';']);
                        }
                        let ghost w2 = *f;
                        let r = write_code_list(f, codes, i + 1, format);
                        proof {
                            if r is Ok {
                                lemma_wrote_wrote(*old(f), w2, *f, a1 + seq![';'], tail);
                            } else {
                                lemma_wrote_partial(*old(f), w2, *f, a1 + seq![';'], tail);
                            }
                        }
                        r
                    },
                }
            },
        }
    }
}

impl Color {
    /// Writes the foreground code fragment of this color: the bytes that
    /// stand for it in an escape sequence's code list.
    pub fn write_foreground_code<W: AnyWrite>(&self, f: &mut W) -> (r: Result<(), SinkError>)
        ensures
            r is Ok <==> old(f).fits(foreground_code_chars(*self).len()),
            r is Ok ==> wrote(*old(f), *final(f), foreground_code_chars(*self)),
            r is Err ==> partial(*old(f), *final(f), foreground_code_chars(*self)),
    {
        let ghost out = foreground_code_chars(*self);
        match *self {
            Color::Fixed(n) => {
                proof {
                    reveal_strlit("38;5;");
                    assert("38;5;"@ =~= seq!['3', '8', ';', '5', ';']);
                    assert(vstd::string::is_ascii("38;5;"));
                }
                match f.write_str("38;5;") {
                    Err(e) => {
                        proof {
                            W::lemma_fits(*old(f), 5, out.len());
                            lemma_unchanged_partial(*old(f), *f, out);
                        }
                        Err(e)
                    },
                    Ok(_) => {
                        let ghost mid = *f;
                        let r = write_dec(f, n);
                        proof {
                            if r is Ok {
                                lemma_wrote_wrote(
                                    *old(f),
                                    mid,
                                    *f,
                                    seq!['3', '8', ';', '5', ';'],
                                    dec_chars(n as nat),
                                );
                            } else {
                                lemma_wrote_partial(
                                    *old(f),
                                    mid,
                                    *f,
                                    seq!['3', '8', ';', '5', ';'],
                                    dec_chars(n as nat),
                                );
                            }
                        }
                        r
                    },
                }
            },
            Color::Rgb(red, green, blue) => {
                proof {
                    reveal_strlit("38;2;");
                    assert("38;2;"@ =~= seq!['3', '8', ';', '2', ';']);
                    assert(vstd::string::is_ascii("38;2;"));
                }
                write_color_components(f, "38;2;", red, green, blue, Ghost(out))
            },
            _ => {
                let s = named_foreground_str(*self);
                let r = f.write_str(s);
                proof {
                    if r is Err {
                        lemma_unchanged_partial(*old(f), *f, out);
                    }
                }
                r
            },
        }
    }

    /// Writes the background code fragment of this color.
    pub fn write_background_code<W: AnyWrite>(&self, f: &mut W) -> (r: Result<(), SinkError>)
        ensures
            r is Ok <==> old(f).fits(background_code_chars(*self).len()),
            r is Ok ==> wrote(*old(f), *final(f), background_code_chars(*self)),
            r is Err ==> partial(*old(f), *final(f), background_code_chars(*self)),
    {
        let ghost out = background_code_chars(*self);
        match *self {
            Color::Fixed(n) => {
                proof {
                    reveal_strlit("48;5;");
                    assert("48;5;"@ =~= seq!['4', '8', ';', '5', ';']);
                    assert(vstd::string::is_ascii("48;5;"));
                }
                match f.write_str("48;5;") {
                    Err(e) => {
                        proof {
                            W::lemma_fits(*old(f), 5, out.len());
                            lemma_unchanged_partial(*old(f), *f, out);
                        }
                        Err(e)
                    },
                    Ok(_) => {
                        let ghost mid = *f;
                        let r = write_dec(f, n);
                        proof {
                            if r is Ok {
                                lemma_wrote_wrote(
                                    *old(f),
                                    mid,
                                    *f,
                                    seq!['4', '8', ';', '5', ';'],
                                    dec_chars(n as nat),
                                );
                            } else {
                                lemma_wrote_partial(
                                    *old(f),
                                    mid,
                                    *f,
                                    seq!['4', '8', ';', '5', ';'],
                                    dec_chars(n as nat),
                                );
                            }
                        }
                        r
                    },
                }
            },
            Color::Rgb(red, green, blue) => {
                proof {
                    reveal_strlit("48;2;");
                    assert("48;2;"@ =~= seq!['4', '8', ';', '2', ';']);
                    assert(vstd::string::is_ascii("48;2;"));
                }
                write_color_components(f, "48;2;", red, green, blue, Ghost(out))
            },
            _ => {
                let s = named_background_str(*self);
                let r = f.write_str(s);
                proof {
                    if r is Err {
                        lemma_unchanged_partial(*old(f), *f, out);
                    }
                }
                r
            },
        }
    }
}

/// Appends one boolean attribute's code to a code list when `cond` holds.
fn push_attr(codes: &mut Vec<CodeFrag>, cond: bool, code: u8, format: CodeFormat)
    requires
        1 <= code <= 9,
        forall|k: int| 0 <= k < old(codes)@.len() ==> wf_frag(#[trigger] old(codes)@[k]),
    ensures
        frags_of(final(codes)@, format) == frags_of(old(codes)@, format) + frag_if(
            cond,
            attr_code_chars(code as nat, format),
        ),
        forall|k: int| 0 <= k < final(codes)@.len() ==> wf_frag(#[trigger] final(codes)@[k]),
{
    if cond {
        codes.push(CodeFrag::Attr(code));
    }
    proof {
        assert(frags_of(codes@, format) =~= frags_of(old(codes)@, format) + frag_if(
            cond,
            attr_code_chars(code as nat, format),
        ));
    }
}

/// Appends a background color's code to a code list when one is requested.
fn push_bg(codes: &mut Vec<CodeFrag>, color: Option<Color>, format: CodeFormat)
    requires
        forall|k: int| 0 <= k < old(codes)@.len() ==> wf_frag(#[trigger] old(codes)@[k]),
    ensures
        frags_of(final(codes)@, format) == frags_of(old(codes)@, format) + (match color {
            Some(c) => seq![background_code_chars(c)],
            None => Seq::empty(),
        }),
        forall|k: int| 0 <= k < final(codes)@.len() ==> wf_frag(#[trigger] final(codes)@[k]),
{
    if let Some(c) = color {
        codes.push(CodeFrag::Bg(c));
    }
    proof {
        assert(frags_of(codes@, format) =~= frags_of(old(codes)@, format) + (match color {
            Some(c) => seq![background_code_chars(c)],
            None => Seq::empty(),
        }));
    }
}

/// Appends a foreground color's code to a code list when one is requested.
fn push_fg(codes: &mut Vec<CodeFrag>, color: Option<Color>, format: CodeFormat)
    requires
        forall|k: int| 0 <= k < old(codes)@.len() ==> wf_frag(#[trigger] old(codes)@[k]),
    ensures
        frags_of(final(codes)@, format) == frags_of(old(codes)@, format) + (match color {
            Some(c) => seq![foreground_code_chars(c)],
            None => Seq::empty(),
        }),
        forall|k: int| 0 <= k < final(codes)@.len() ==> wf_frag(#[trigger] final(codes)@[k]),
{
    if let Some(c) = color {
        codes.push(CodeFrag::Fg(c));
    }
    proof {
        assert(frags_of(codes@, format) =~= frags_of(old(codes)@, format) + (match color {
            Some(c) => seq![foreground_code_chars(c)],
            None => Seq::empty(),
        }));
    }
}

/// Collects a style's code list in canonical order: the set attributes, the
/// background color, then the foreground color.
#[verifier::rlimit(100)]
fn build_code_list(s: &Style, format: CodeFormat) -> (codes: Vec<CodeFrag>)
    ensures
        frags_of(codes@, format) == style_code_frags(*s, format),
        forall|k: int| 0 <= k < codes@.len() ==> wf_frag(#[trigger] codes@[k]),
{
    let mut codes: Vec<CodeFrag> = Vec::new();
    proof {
        assert(frags_of(codes@, format) =~= Seq::<Seq<char>>::empty());
    }
    push_attr(&mut codes, s.is_bold, 1, format);
    proof {
        assert(Seq::<Seq<char>>::empty() + frag_if(s.is_bold, attr_code_chars(1, format)) =~= frag_if(
            s.is_bold,
            attr_code_chars(1, format),
        ));
    }
    push_attr(&mut codes, s.is_dimmed, 2, format);
    push_attr(&mut codes, s.is_italic, 3, format);
    push_attr(&mut codes, s.is_underline, 4, format);
    push_attr(&mut codes, s.is_blink, 5, format);
    push_attr(&mut codes, s.is_reverse, 7, format);
    push_attr(&mut codes, s.is_hidden, 8, format);
    push_attr(&mut codes, s.is_strikethrough, 9, format);
    push_bg(&mut codes, s.background, format);
    push_fg(&mut codes, s.foreground, format);
    proof {
        assert(frags_of(codes@, format) == style_code_frags(*s, format));
    }
    codes
}

impl Style {
    /// Writes the bytes that go in front of a piece of text rendered in this
    /// style: nothing when the style is plain, else the optional forced
    /// reset, `ESC[`, the semicolon-separated code list in canonical order,
    /// and the closing `m`.
    pub fn write_prefix<W: AnyWrite>(&self, f: &mut W, format: CodeFormat) -> (r: Result<
        (),
        SinkError,
    >)
        ensures
            r is Ok <==> old(f).fits(prefix_chars(*self, format).len()),
            r is Ok ==> wrote(*old(f), *final(f), prefix_chars(*self, format)),
            r is Err ==> partial(*old(f), *final(f), prefix_chars(*self, format)),
    {
        let ghost out = prefix_chars(*self, format);
        if self.is_plain() {
            proof {
                W::lemma_fits(*old(f), 0, 0);
                assert(old(f).contents() + out =~= old(f).contents());
                assert(wrote(*old(f), *f, out));
            }
            return Ok(());
        }
        let ghost acc0: Seq<char> = if self.prefix_with_reset {
            reset_chars()
        } else {
            Seq::empty()
        };
        let ghost joined = join_codes(style_code_frags(*self, format));
        proof {
            assert(out == acc0 + sequence_start_chars() + joined + seq!['m']);
        }
        if self.prefix_with_reset {
            match write_reset(f) {
                Err(e) => {
                    proof {
                        W::lemma_fits(*old(f), reset_chars().len(), out.len());
                        lemma_unchanged_partial(*old(f), *f, out);
                    }
                    return Err(e);
                },
                Ok(_) => {},
            }
        }
        proof {
            if !self.prefix_with_reset {
                assert(old(f).contents() + acc0 =~= old(f).contents());
            }
            assert(wrote(*old(f), *f, acc0));
        }
        let ghost w0 = *f;
        match write_sequence_start(f) {
            Err(e) => {
                proof {
                    W::lemma_fits(*old(f), acc0.len() + 2, out.len());
                    lemma_unchanged_partial(w0, *f, sequence_start_chars());
                    lemma_wrote_partial(*old(f), w0, *f, acc0, sequence_start_chars());
                    assert(acc0 + sequence_start_chars() =~= out.subrange(0, acc0.len() as int + 2));
                    lemma_partial_widen(*old(f), *f, acc0 + sequence_start_chars(), out);
                }
                return Err(e);
            },
            Ok(_) => {},
        }
        proof {
            lemma_wrote_wrote(*old(f), w0, *f, acc0, sequence_start_chars());
        }
        let ghost acc1 = acc0 + sequence_start_chars();
        let ghost w1 = *f;

        let codes = build_code_list(self, format);
        proof {
            assert(frags_of(codes@, format).skip(0) =~= frags_of(codes@, format));
        }

        match write_code_list(f, &codes, 0, format) {
            Err(e) => {
                proof {
                    W::lemma_fits(*old(f), acc1.len() + joined.len(), out.len());
                    lemma_wrote_partial(*old(f), w1, *f, acc1, joined);
                    assert(acc1 + joined =~= out.subrange(0, acc1.len() as int + joined.len() as int));
                    lemma_partial_widen(*old(f), *f, acc1 + joined, out);
                }
                return Err(e);
            },
            Ok(_) => {},
        }
        proof {
            lemma_wrote_wrote(*old(f), w1, *f, acc1, joined);
        }
        let ghost acc2 = acc1 + joined;
        let ghost w2 = *f;
        let r = write_sequence_end(f);
        proof {
            if r is Ok {
                lemma_wrote_wrote(*old(f), w2, *f, acc2, seq!['m']);
            } else {
                lemma_unchanged_partial(w2, *f, seq!['m']);
                lemma_wrote_partial(*old(f), w2, *f, acc2, seq!['m']);
            }
        }
        r
    }

    /// Writes the bytes that go after a piece of text rendered in this style:
    /// nothing when the style is plain, else exactly the full reset.
    pub fn write_suffix<W: AnyWrite>(&self, f: &mut W) -> (r: Result<(), SinkError>)
        ensures
            r is Ok <==> old(f).fits(suffix_chars(*self).len()),
            r is Ok ==> wrote(*old(f), *final(f), suffix_chars(*self)),
            r is Err ==> partial(*old(f), *final(f), suffix_chars(*self)),
    {
        let ghost out = suffix_chars(*self);
        if self.is_plain() {
            proof {
                W::lemma_fits(*old(f), 0, 0);
                assert(old(f).contents() + out =~= old(f).contents());
                assert(wrote(*old(f), *f, out));
            }
            Ok(())
        } else {
            let r = write_reset(f);
            proof {
                if r is Err {
                    lemma_unchanged_partial(*old(f), *f, out);
                }
            }
            r
        }
    }
}

/// Writes a true-color introducer followed by the three decimal components,
/// separated by separators.
fn write_color_components<W: AnyWrite>(
    f: &mut W,
    intro: &str,
    red: u8,
    green: u8,
    blue: u8,
    Ghost(out): Ghost<Seq<char>>,
) -> (r: Result<(), SinkError>)
    requires
        intro.is_ascii(),
        out == intro@ + dec_chars(red as nat) + seq![';'] + dec_chars(green as nat) + seq![';']
            + dec_chars(blue as nat),
    ensures
        r is Ok <==> old(f).fits(out.len()),
        r is Ok ==> wrote(*old(f), *final(f), out),
        r is Err ==> partial(*old(f), *final(f), out),
{
    let ghost acc1 = intro@;
    let ghost acc2 = acc1 + dec_chars(red as nat);
    let ghost acc3 = acc2 + (seq![';'] + dec_chars(green as nat));
    let ghost acc4 = acc3 + (seq![';'] + dec_chars(blue as nat));
    proof {
        assert(acc2 =~= out.subrange(0, acc2.len() as int));
        assert(acc3 =~= out.subrange(0, acc3.len() as int));
        assert(acc4 =~= out);
    }
    match f.write_str(intro) {
        Err(e) => {
            proof {
                W::lemma_fits(*old(f), acc1.len(), out.len());
                lemma_unchanged_partial(*old(f), *f, out);
            }
            Err(e)
        },
        Ok(_) => {
            let ghost w1 = *f;
            match write_dec(f, red) {
                Err(e) => {
                    proof {
                        W::lemma_fits(*old(f), acc2.len(), out.len());
                        lemma_wrote_partial(*old(f), w1, *f, acc1, dec_chars(red as nat));
                        lemma_partial_widen(*old(f), *f, acc2, out);
                    }
                    Err(e)
                },
                Ok(_) => {
                    proof {
                        lemma_wrote_wrote(*old(f), w1, *f, acc1, dec_chars(red as nat));
                    }
                    let ghost w2 = *f;
                    match write_sep_dec(f, green) {
                        Err(e) => {
                            proof {
                                W::lemma_fits(*old(f), acc3.len(), out.len());
                                lemma_wrote_partial(
                                    *old(f),
                                    w2,
                                    *f,
                                    acc2,
                                    seq![';'] + dec_chars(green as nat),
                                );
                                lemma_partial_widen(*old(f), *f, acc3, out);
                            }
                            Err(e)
                        },
                        Ok(_) => {
                            proof {
                                lemma_wrote_wrote(
                                    *old(f),
                                    w2,
                                    *f,
                                    acc2,
                                    seq![';'] + dec_chars(green as nat),
                                );
                            }
                            let ghost w3 = *f;
                            let r = write_sep_dec(f, blue);
                            proof {
                                if r is Ok {
                                    lemma_wrote_wrote(
                                        *old(f),
                                        w3,
                                        *f,
                                        acc3,
                                        seq![';'] + dec_chars(blue as nat),
                                    );
                                } else {
                                    lemma_wrote_partial(
                                        *old(f),
                                        w3,
                                        *f,
                                        acc3,
                                        seq![';'] + dec_chars(blue as nat),
                                    );
                                }
                            }
                            r
                        },
                    }
                },
            }
        },
    }
}

impl Style {
    /// Writes the minimal bytes that move a terminal rendering this style to
    /// rendering `next`: nothing when the styles are identical, a full reset
    /// followed by `next`'s complete prefix when an attribute or a color is
    /// removed, and only the newly added codes otherwise.
    pub fn write_infix<W: AnyWrite>(&self, next: Style, f: &mut W, format: CodeFormat) -> (r:
        Result<(), SinkError>)
        ensures
            r is Ok <==> old(f).fits(infix_chars(*self, next, format).len()),
            r is Ok ==> wrote(*old(f), *final(f), infix_chars(*self, next, format)),
            r is Err ==> partial(*old(f), *final(f), infix_chars(*self, next, format)),
    {
        let ghost out = infix_chars(*self, next, format);
        if *self == next {
            proof {
                W::lemma_fits(*old(f), 0, 0);
                assert(old(f).contents() + out =~= old(f).contents());
                assert(wrote(*old(f), *f, out));
            }
            return Ok(());
        }
        let removal = (self.is_bold && !next.is_bold) || (self.is_dimmed && !next.is_dimmed) || (
        self.is_italic && !next.is_italic) || (self.is_underline && !next.is_underline) || (
        self.is_blink && !next.is_blink) || (self.is_reverse && !next.is_reverse) || (
        self.is_hidden && !next.is_hidden) || (self.is_strikethrough && !next.is_strikethrough)
            || (self.foreground.is_some() && next.foreground.is_none()) || (
        self.background.is_some() && next.background.is_none());
        proof {
            assert(removal == removes_any(*self, next));
        }
        if removal {
            match write_reset(f) {
                Err(e) => {
                    proof {
                        W::lemma_fits(*old(f), reset_chars().len(), out.len());
                        lemma_unchanged_partial(*old(f), *f, out);
                    }
                    Err(e)
                },
                Ok(_) => {
                    let ghost w0 = *f;
                    let r = next.write_prefix(f, format);
                    proof {
                        if r is Ok {
                            lemma_wrote_wrote(
                                *old(f),
                                w0,
                                *f,
                                reset_chars(),
                                prefix_chars(next, format),
                            );
                        } else {
                            lemma_wrote_partial(
                                *old(f),
                                w0,
                                *f,
                                reset_chars(),
                                prefix_chars(next, format),
                            );
                        }
                    }
                    r
                },
            }
        } else {
            let update = Style {
                foreground: match (self.foreground, next.foreground) {
                    (Some(a), Some(b)) => if a == b {
                        None
                    } else {
                        Some(b)
                    },
                    _ => next.foreground,
                },
                background: match (self.background, next.background) {
                    (Some(a), Some(b)) => if a == b {
                        None
                    } else {
                        Some(b)
                    },
                    _ => next.background,
                },
                is_bold: next.is_bold && !self.is_bold,
                is_dimmed: next.is_dimmed && !self.is_dimmed,
                is_italic: next.is_italic && !self.is_italic,
                is_underline: next.is_underline && !self.is_underline,
                is_blink: next.is_blink && !self.is_blink,
                is_reverse: next.is_reverse && !self.is_reverse,
                is_hidden: next.is_hidden && !self.is_hidden,
                is_strikethrough: next.is_strikethrough && !self.is_strikethrough,
                prefix_with_reset: false,
            };
            proof {
                assert(update == update_style(*self, next));
            }
            update.write_prefix(f, format)
        }
    }
}

/// Displays only a style's prefix: the bytes that activate the style.
#[derive(Clone, Copy, Debug)]
pub struct Prefix(pub Style);

/// Displays only the transition between two styles: the minimal bytes that
/// move a terminal from the first to the second.
#[derive(Clone, Copy, Debug)]
pub struct Infix(pub Style, pub Style);

/// Displays only a style's suffix: the bytes that deactivate the style.
#[derive(Clone, Copy, Debug)]
pub struct Suffix(pub Style);

impl Prefix {
    /// The prefix bytes as a string, in the given code format.
    pub fn to_string_with(&self, format: CodeFormat) -> (r: String)
        ensures
            r@ == prefix_chars(self.0, format),
    {
        let mut sink = StringSink::new();
        let res = self.0.write_prefix(&mut sink, format);
        proof {
            assert(res is Ok);
            assert(sink.contents() =~= prefix_chars(self.0, format));
        }
        sink.into_string()
    }

    /// The prefix bytes as a string, in the standard code format.
    pub fn to_string(&self) -> (r: String)
        ensures
            r@ == prefix_chars(self.0, CodeFormat::Standard),
    {
        self.to_string_with(CodeFormat::Standard)
    }
}

impl Infix {
    /// The transition bytes as a string, in the given code format.
    pub fn to_string_with(&self, format: CodeFormat) -> (r: String)
        ensures
            r@ == infix_chars(self.0, self.1, format),
    {
        let mut sink = StringSink::new();
        let res = self.0.write_infix(self.1, &mut sink, format);
        proof {
            assert(res is Ok);
            assert(sink.contents() =~= infix_chars(self.0, self.1, format));
        }
        sink.into_string()
    }

    /// The transition bytes as a string, in the standard code format.
    pub fn to_string(&self) -> (r: String)
        ensures
            r@ == infix_chars(self.0, self.1, CodeFormat::Standard),
    {
        self.to_string_with(CodeFormat::Standard)
    }
}

impl Suffix {
    /// The suffix bytes as a string.
    pub fn to_string(&self) -> (r: String)
        ensures
            r@ == suffix_chars(self.0),
    {
        let mut sink = StringSink::new();
        let res = self.0.write_suffix(&mut sink);
        proof {
            assert(res is Ok);
            assert(sink.contents() =~= suffix_chars(self.0));
        }
        sink.into_string()
    }
}

impl Style {
    /// The prefix of this style: the bytes that tell the terminal to use its
    /// colors and attributes.
    pub fn prefix(self) -> (r: Prefix)
        ensures
            r == (Prefix(self)),
    {
        Prefix(self)
    }

    /// The transition between this style and `next`: the minimal bytes that
    /// tell the terminal to change from the one to the other.
    pub fn infix(self, next: Style) -> (r: Infix)
        ensures
            r == (Infix(self, next)),
    {
        Infix(self, next)
    }

    /// The suffix of this style: the bytes that tell the terminal to reset
    /// back to its normal state.
    pub fn suffix(self) -> (r: Suffix)
        ensures
            r == (Suffix(self)),
    {
        Suffix(self)
    }
}

impl Color {
    /// The prefix of this color as a foreground-only style.
    pub fn prefix(self) -> (r: Prefix)
        ensures
            r == (Prefix(self.spec_normal())),
    {
        Prefix(self.normal())
    }

    /// The transition between this color and `next`, both as foreground-only
    /// styles.
    pub fn infix(self, next: Color) -> (r: Infix)
        ensures
            r == (Infix(self.spec_normal(), next.spec_normal())),
    {
        Infix(self.normal(), next.normal())
    }

    /// The suffix of this color as a foreground-only style.
    pub fn suffix(self) -> (r: Suffix)
        ensures
            r == (Suffix(self.spec_normal())),
    {
        Suffix(self.normal())
    }
}

} // verus!
