//! Gadgets as text.
//!
//! A gadget is rendered as a list of tokens, each a piece of text with the
//! kind of thing it shows. The text of an instruction comes from the Intel
//! formatter of `iced_x86`; the address in front and the separators between
//! the instructions are made here.

use crate::gadget::Gadget;
use crate::instruction::all_decoder_made;
use crate::instruction::decoder_made;
use iced_x86::Formatter;
use iced_x86::FormatterOutput;
use iced_x86::FormatterTextKind;
use iced_x86::Instruction;
use iced_x86::IntelFormatter;
use vstd::prelude::*;
use vstd::string::StringExecFns;

verus! {

// `FormatterTextKind` is an enum without fields, so its variants are read from
// `iced_x86` as they are and nothing has to be taken on trust.
#[verifier::external_type_specification]
pub struct ExFormatterTextKind(FormatterTextKind);

/// A piece of rendered text and what it shows.
#[derive(Debug)]
pub struct Token {
    pub text: String,
    pub kind: FormatterTextKind,
}

/// What a [`Token`] stands for.
pub struct TokenView {
    pub text: Seq<char>,
    pub kind: FormatterTextKind,
}

impl View for Token {
    type V = TokenView;

    open spec fn view(&self) -> TokenView {
        TokenView { text: self.text@, kind: self.kind }
    }
}

/// The views of `tokens`, in order.
pub open spec fn token_views(tokens: Seq<Token>) -> Seq<TokenView> {
    tokens.map_values(|token: Token| token@)
}

/// The settings of the instruction formatter that a rendering depends on.
pub struct Style {
    pub hex_prefix: &'static str,
    pub hex_suffix: &'static str,
    pub space_after_operand_separator: bool,
    pub branch_leading_zeros: bool,
    pub uppercase_hex: bool,
    pub rip_relative_addresses: bool,
}

/// What a [`Style`] stands for.
pub struct StyleView {
    pub hex_prefix: Seq<char>,
    pub hex_suffix: Seq<char>,
    pub space_after_operand_separator: bool,
    pub branch_leading_zeros: bool,
    pub uppercase_hex: bool,
    pub rip_relative_addresses: bool,
}

impl View for Style {
    type V = StyleView;

    open spec fn view(&self) -> StyleView {
        StyleView {
            hex_prefix: self.hex_prefix@,
            hex_suffix: self.hex_suffix@,
            space_after_operand_separator: self.space_after_operand_separator,
            branch_leading_zeros: self.branch_leading_zeros,
            uppercase_hex: self.uppercase_hex,
            rip_relative_addresses: self.rip_relative_addresses,
        }
    }
}

/// The tokens that the Intel formatter, set to `style` and otherwise as it is
/// made, writes for `instruction`.
pub uninterp spec fn intel_syntax(instruction: Instruction, style: StyleView) -> Seq<TokenView>;

/// Collects what a formatter writes, in the order in which it writes it.
pub struct TokenSink {
    pub tokens: Vec<Token>,
}

impl FormatterOutput for TokenSink {
    fn write(&mut self, text: &str, kind: FormatterTextKind)
        ensures
            token_views(final(self).tokens@) == token_views(old(self).tokens@).push(
                TokenView { text: text@, kind },
            ),
    {
        self.tokens.push(Token { text: text.to_owned(), kind });
        proof {
            assert(token_views(self.tokens@) =~= token_views(old(self).tokens@).push(
                TokenView { text: text@, kind },
            ));
        }
    }
}

/// `IntelFormatter::format`, on a formatter that `IntelFormatter::new` made
/// and whose options were then set from `style`. Such a formatter has no
/// symbol resolver and no options provider, so that what it writes depends on
/// the instruction and the options alone. The tokens come back in the order
/// in which the formatter wrote them.
///
/// The formatter takes for granted that the fields of the instruction fit
/// together, and may stop where they do not; they do in an instruction that a
/// decoder made.
#[verifier::external_body]
fn intel_tokens(instruction: &Instruction, style: &Style) -> (tokens: Vec<Token>)
    requires
        decoder_made(*instruction),
    ensures
        token_views(tokens@) == intel_syntax(*instruction, style@),
{
    let mut formatter = IntelFormatter::new();
    let options = formatter.options_mut();
    options.set_hex_prefix(style.hex_prefix);
    options.set_hex_suffix(style.hex_suffix);
    options.set_space_after_operand_separator(style.space_after_operand_separator);
    options.set_branch_leading_zeros(style.branch_leading_zeros);
    options.set_uppercase_hex(style.uppercase_hex);
    options.set_rip_relative_addresses(style.rip_relative_addresses);
    let mut sink = TokenSink { tokens: Vec::new() };
    formatter.format(instruction, &mut sink);
    sink.tokens
}

/// The style of every rendering: hexadecimal numbers with `0x` in front and
/// nothing behind, in lower case; a space behind the comma between operands;
/// branch targets without leading zeros; addresses relative to the
/// instruction pointer shown as such.
pub open spec fn gadget_style() -> StyleView {
    StyleView {
        hex_prefix: seq!['0', 'x'],
        hex_suffix: Seq::empty(),
        space_after_operand_separator: true,
        branch_leading_zeros: false,
        uppercase_hex: false,
        rip_relative_addresses: true,
    }
}

/// The style of every rendering.
pub fn style() -> (style: Style)
    ensures
        style@ == gadget_style(),
{
    proof {
        reveal_strlit("0x");
        reveal_strlit("");
        assert("0x"@ =~= seq!['0', 'x']);
        assert(""@ =~= Seq::<char>::empty());
    }
    Style {
        hex_prefix: "0x",
        hex_suffix: "",
        space_after_operand_separator: true,
        branch_leading_zeros: false,
        uppercase_hex: false,
        rip_relative_addresses: true,
    }
}

/// A token of plain text.
pub open spec fn plain(text: Seq<char>) -> TokenView {
    TokenView { text, kind: FormatterTextKind::Text }
}

/// One instruction of a gadget as tokens: the instruction, a semicolon, and
/// a space unless it is the last.
pub open spec fn piece(instruction: Instruction, last: bool) -> Seq<TokenView> {
    let closed = intel_syntax(instruction, gadget_style()).push(plain(seq![';']));
    if last {
        closed
    } else {
        closed.push(plain(seq![' ']))
    }
}

/// The first `count` instructions of `body` as tokens.
pub open spec fn rendered_upto(body: Seq<Instruction>, count: nat) -> Seq<TokenView>
    decreases count,
{
    if count == 0 {
        Seq::empty()
    } else {
        rendered_upto(body, (count - 1) as nat) + piece(body[count - 1], count == body.len())
    }
}

/// The instructions of a gadget as tokens.
pub open spec fn rendered(body: Seq<Instruction>) -> Seq<TokenView> {
    rendered_upto(body, body.len())
}

/// The hexadecimal digit for `value`, which is below sixteen.
pub open spec fn hex_digit(value: nat) -> char {
    seq!['0', '1', '2', '3', '4', '5', '6', '7', '8', '9', 'a', 'b', 'c', 'd', 'e', 'f'][value as int]
}

/// `value` in hexadecimal, with zeros in front where it has fewer than
/// `width` digits.
pub open spec fn hex_digits(value: nat, width: nat) -> Seq<char>
    decreases value + width,
{
    if value < 16 && width <= 1 {
        seq![hex_digit(value)]
    } else {
        let narrower = if width > 0 {
            (width - 1) as nat
        } else {
            0
        };
        hex_digits(value / 16, narrower).push(hex_digit(value % 16))
    }
}

/// The address in front of a gadget: `0x`, the offset in at least eight
/// hexadecimal digits, a colon and a space.
pub open spec fn address_text(offset: nat) -> Seq<char> {
    seq!['0', 'x'] + hex_digits(offset, 8) + seq![':', ' ']
}

/// Sixteen to the power of `digits`.
pub open spec fn sixteen_to(digits: nat) -> nat
    decreases digits,
{
    if digits == 0 {
        1
    } else {
        16 * sixteen_to((digits - 1) as nat)
    }
}

/// A number that fits in `width` hexadecimal digits is written in exactly
/// `width` digits, and no number in fewer.
pub proof fn lemma_hex_digits_len(value: nat, width: nat)
    ensures
        hex_digits(value, width).len() >= width,
        hex_digits(value, width).len() >= 1,
        width >= 1 && value < sixteen_to(width) ==> hex_digits(value, width).len() == width,
    decreases value + width,
{
    if !(value < 16 && width <= 1) {
        let narrower = if width > 0 {
            (width - 1) as nat
        } else {
            0
        };
        lemma_hex_digits_len(value / 16, narrower);
        if width >= 1 && value < sixteen_to(width) {
            assert(value / 16 < sixteen_to(narrower));
            assert(sixteen_to(0) == 1);
        }
    } else {
        assert(sixteen_to(1) == 16) by {
            reveal_with_fuel(sixteen_to, 2);
        }
    }
}

/// The address of an offset below two to the power of thirty-two takes ten
/// characters, eight of them digits; the colon and the space follow.
pub proof fn lemma_address_is_ten_wide(offset: nat)
    requires
        offset < 0x1_0000_0000,
    ensures
        hex_digits(offset, 8).len() == 8,
        address_text(offset).len() == 12,
{
    assert(sixteen_to(8) == 0x1_0000_0000) by {
        reveal_with_fuel(sixteen_to, 9);
    }
    lemma_hex_digits_len(offset, 8);
}

/// The address token of a gadget found at `offset`.
pub open spec fn address_label(offset: nat) -> TokenView {
    TokenView { text: address_text(offset), kind: FormatterTextKind::Function }
}

fn hex_digit_text(value: usize) -> (text: &'static str)
    requires
        value < 16,
    ensures
        text@ == seq![hex_digit(value as nat)],
{
    proof {
        reveal_strlit("0");
        reveal_strlit("1");
        reveal_strlit("2");
        reveal_strlit("3");
        reveal_strlit("4");
        reveal_strlit("5");
        reveal_strlit("6");
        reveal_strlit("7");
        reveal_strlit("8");
        reveal_strlit("9");
        reveal_strlit("a");
        reveal_strlit("b");
        reveal_strlit("c");
        reveal_strlit("d");
        reveal_strlit("e");
        reveal_strlit("f");
    }
    let text = match value {
        0 => "0",
        1 => "1",
        2 => "2",
        3 => "3",
        4 => "4",
        5 => "5",
        6 => "6",
        7 => "7",
        8 => "8",
        9 => "9",
        10 => "a",
        11 => "b",
        12 => "c",
        13 => "d",
        14 => "e",
        _ => "f",
    };
    assert(text@ =~= seq![hex_digit(value as nat)]);
    text
}

fn append_hex(out: &mut String, value: usize, width: usize)
    ensures
        final(out)@ == old(out)@ + hex_digits(value as nat, width as nat),
    decreases value + width,
{
    let narrower: usize = if width > 0 {
        width - 1
    } else {
        0
    };
    if value >= 16 || width > 1 {
        append_hex(out, value / 16, narrower);
    }
    let ghost front = out@;
    out.append(hex_digit_text(value % 16));
    proof {
        let last = hex_digit((value % 16) as nat);
        if value >= 16 || width > 1 {
            let higher = hex_digits((value / 16) as nat, narrower as nat);
            assert(old(out)@ + higher + seq![last] =~= old(out)@ + higher.push(last));
        } else {
            assert(front + seq![last] =~= old(out)@ + seq![last]);
        }
    }
}

fn address(offset: usize) -> (text: String)
    ensures
        text@ == address_text(offset as nat),
{
    proof {
        reveal_strlit("0x");
        reveal_strlit(": ");
    }
    let mut text = String::from_str("0x");
    append_hex(&mut text, offset, 8);
    text.append(": ");
    assert(text@ =~= address_text(offset as nat));
    text
}

fn separator(text: &'static str) -> (token: Token)
    ensures
        token@ == plain(text@),
{
    Token { text: String::from_str(text), kind: FormatterTextKind::Text }
}

impl Gadget {
    /// Appends the gadget's instructions to `output`: after each instruction
    /// a semicolon, and between two instructions a space.
    pub fn format_instruction(&self, output: &mut Vec<Token>)
        ensures
            token_views(final(output)@) == token_views(old(output)@) + rendered(
                self@.instructions,
            ),
    {
        let body = self.instructions();
        let style = style();
        let count = body.len();
        let mut k: usize = 0;
        proof {
            assert(token_views(output@) + rendered_upto(body@, 0) == token_views(output@));
        }
        while k < count
            invariant
                k <= count,
                count == body@.len(),
                body@ == self@.instructions,
                all_decoder_made(body@),
                style@ == gadget_style(),
                token_views(output@) == token_views(old(output)@) + rendered_upto(
                    body@,
                    k as nat,
                ),
            decreases count - k,
        {
            let ghost before = output@;
            let mut tokens = intel_tokens(&body[k], &style);
            let ghost written = tokens@;
            output.append(&mut tokens);
            proof {
                reveal_strlit(";");
                reveal_strlit(" ");
                assert(";"@ =~= seq![';']);
                assert(" "@ =~= seq![' ']);
            }
            output.push(separator(";"));
            if k + 1 < count {
                output.push(separator(" "));
            }
            proof {
                assert(token_views(output@) =~= token_views(before) + piece(
                    body@[k as int],
                    k + 1 == count,
                )) by {
                    assert(token_views(written) == intel_syntax(body@[k as int], gadget_style()));
                    assert(forall|j: int|
                        0 <= j < written.len() ==> token_views(written)[j] == written[j]@);
                }
            }
            k += 1;
        }
    }

    /// Appends the gadget to `output`: its address as a label, then its
    /// instructions as [`Gadget::format_instruction`] writes them.
    pub fn format_full(&self, output: &mut Vec<Token>)
        ensures
            token_views(final(output)@) == token_views(old(output)@).push(
                address_label(self@.file_offset),
            ) + rendered(self@.instructions),
    {
        let label = Token { text: address(self.file_offset()), kind: FormatterTextKind::Function };
        output.push(label);
        proof {
            assert(token_views(output@) =~= token_views(old(output)@).push(
                address_label(self@.file_offset),
            ));
        }
        self.format_instruction(output);
    }
}

} // verus!
