use vstd::prelude::*;
use crate::material::Color;
use crate::scalar::TICKS_PER_UNIT;

verus! {

/// A grid of pixels, `canvas[y][x]` being the colour `x` pixels from the
/// left in the row `y` rows from the top.
pub struct Canvas {
    pub width: usize,
    pub height: usize,
    pub canvas: Vec<Vec<Color>>,
}

/// The longest line of the text form, in bytes.
pub const MAX_COL: usize = 70;

/// What is written of one channel: its intensity on the scale from 0 to
/// 255, rounded to the nearest step, and held within the scale.
pub open spec fn sample_of(c: i64) -> u8 {
    if c <= 0 {
        0
    } else if c >= TICKS_PER_UNIT {
        255
    } else {
        ((255 * c + TICKS_PER_UNIT / 2) / (TICKS_PER_UNIT as int)) as u8
    }
}

/// The decimal digits of `n`, as ASCII bytes.
pub open spec fn digits(n: nat) -> Seq<u8>
    decreases n,
{
    if n < 10 {
        seq![(48 + n) as u8]
    } else {
        digits(n / 10).push((48 + n % 10) as u8)
    }
}

/// The samples of a row of pixels: red, green and blue of each, from the
/// left.
pub open spec fn row_samples(row: Seq<Color>) -> Seq<u8>
    decreases row.len(),
{
    if row.len() == 0 {
        Seq::empty()
    } else {
        row_samples(row.drop_last()) + seq![
            sample_of(row.last().red),
            sample_of(row.last().green),
            sample_of(row.last().blue),
        ]
    }
}

/// The samples of the rows, from the top.
pub open spec fn samples_of(rows: Seq<Vec<Color>>) -> Seq<u8>
    decreases rows.len(),
{
    if rows.len() == 0 {
        Seq::empty()
    } else {
        samples_of(rows.drop_last()) + row_samples(rows.last()@)
    }
}

/// The text written so far, the length that the writer holds the current
/// line to have, and the number of samples written of the current row.
pub struct Layout {
    pub text: Seq<u8>,
    pub line_length: int,
    pub column: int,
}

/// The layout after one more sample, written as `word`. A line is broken
/// before a word that would take it past `MAX_COL`, a blank stands before
/// every word but the first of a row, and a row of `per_row` samples ends
/// its line.
pub open spec fn place(before: Layout, word: Seq<u8>, per_row: int) -> Layout {
    let column = before.column + 1;
    let wrap = before.line_length + word.len() + 1 > MAX_COL;
    let broken = if wrap {
        before.text.push(10)
    } else {
        before.text
    };
    let length = if wrap {
        0
    } else {
        before.line_length
    };
    let spaced = if column > 1 {
        broken.push(32)
    } else {
        broken
    };
    let spaced_length = if column > 1 {
        length + 1
    } else {
        length
    };
    if column >= per_row {
        Layout { text: (spaced + word).push(10), line_length: word.len() as int, column: 0 }
    } else {
        Layout { text: spaced + word, line_length: spaced_length + word.len(), column }
    }
}

/// The layout after all of `samples`.
pub open spec fn lay_out(samples: Seq<u8>, per_row: int) -> Layout
    decreases samples.len(),
{
    if samples.len() == 0 {
        Layout { text: Seq::empty(), line_length: 0, column: 0 }
    } else {
        place(lay_out(samples.drop_last(), per_row), digits(samples.last() as nat), per_row)
    }
}

/// The head of the text form: the format's mark, the width and height, and
/// the top of the scale, each on a line.
pub open spec fn header(width: usize, height: usize) -> Seq<u8> {
    seq![80u8, 51, 10] + digits(width as nat) + seq![32u8] + digits(height as nat) + seq![
        10u8,
        50,
        53,
        53,
        10,
    ]
}

/// The text form of a canvas of the given size and rows.
pub open spec fn ppm_text(width: usize, height: usize, rows: Seq<Vec<Color>>) -> Seq<u8> {
    (header(width, height) + lay_out(samples_of(rows), 3 * width).text).push(10)
}

/// The decimal digits of a number are ASCII digits, at least one, and at
/// most three for a number below 256.
pub proof fn lemma_digits(n: nat)
    ensures
        digits(n).len() >= 1,
        n < 256 ==> digits(n).len() <= 3,
        forall|i: int| 0 <= i < digits(n).len() ==> 48 <= #[trigger] digits(n)[i] <= 57,
    decreases n,
{
    if n >= 10 {
        lemma_digits(n / 10);
        if n < 256 {
            reveal_with_fuel(digits, 3);
        }
    }
}

/// Writes one channel on the scale from 0 to 255.
pub fn sample(c: i64) -> (r: u8)
    ensures
        r == sample_of(c),
{
    if c <= 0 {
        0
    } else if c >= TICKS_PER_UNIT {
        255
    } else {
        let scaled: i64 = (255 * c + TICKS_PER_UNIT / 2) / TICKS_PER_UNIT;
        scaled as u8
    }
}

fn push_digits(out: &mut Vec<u8>, n: usize)
    ensures
        final(out)@ == old(out)@ + digits(n as nat),
    decreases n,
{
    if n < 10 {
        out.push(48 + n as u8);
        proof {
            assert(out@ =~= old(out)@ + digits(n as nat));
        }
    } else {
        push_digits(out, n / 10);
        out.push(48 + (n % 10) as u8);
        proof {
            assert(out@ =~= old(out)@ + digits(n as nat));
        }
    }
}

fn push_all(out: &mut Vec<u8>, word: &Vec<u8>)
    ensures
        final(out)@ == old(out)@ + word@,
{
    let mut i: usize = 0;
    while i < word.len()
        invariant
            0 <= i <= word.len(),
            out@ == old(out)@ + word@.take(i as int),
        decreases word.len() - i,
    {
        out.push(word[i]);
        proof {
            assert(word@.take(i + 1) =~= word@.take(i as int).push(word@[i as int]));
            assert(out@ =~= old(out)@ + word@.take(i + 1));
        }
        i += 1;
    }
    proof {
        assert(word@.take(word.len() as int) =~= word@);
    }
}

/// Whether a byte is one that the text form is made of: a digit, a blank,
/// a line feed or the letter of the format's mark.
pub open spec fn plain(b: u8) -> bool {
    b == 10 || b == 32 || (48 <= b <= 57) || b == 80
}

/// The layout is made of digits, blanks and line feeds, and the writer
/// never holds a line to be longer than `MAX_COL`.
pub proof fn lemma_lay_out(samples: Seq<u8>, per_row: int)
    ensures
        forall|i: int|
            0 <= i < lay_out(samples, per_row).text.len() ==> plain(
                #[trigger] lay_out(samples, per_row).text[i],
            ),
        0 <= lay_out(samples, per_row).line_length <= MAX_COL,
        0 <= lay_out(samples, per_row).column <= samples.len(),
    decreases samples.len(),
{
    if samples.len() > 0 {
        lemma_lay_out(samples.drop_last(), per_row);
        lemma_digits(samples.last() as nat);
    }
}

/// The text form is made of digits, blanks, line feeds and the format's
/// mark.
pub proof fn lemma_ppm_text_plain(width: usize, height: usize, rows: Seq<Vec<Color>>)
    ensures
        forall|i: int|
            0 <= i < ppm_text(width, height, rows).len() ==> plain(
                #[trigger] ppm_text(width, height, rows)[i],
            ),
{
    lemma_digits(width as nat);
    lemma_digits(height as nat);
    lemma_lay_out(samples_of(rows), 3 * width);
}

/// The number of bytes behind the last line feed of `text`: the length
/// of the line that `text` ends in.
pub open spec fn tail_len(text: Seq<u8>) -> int
    decreases text.len(),
{
    if text.len() == 0 {
        0
    } else if text.last() == 10 {
        0
    } else {
        tail_len(text.drop_last()) + 1
    }
}

/// Whether no line of `text` is longer than `MAX_COL`.
pub open spec fn lines_fit(text: Seq<u8>) -> bool {
    forall|i: int| 0 <= i <= text.len() ==> tail_len(#[trigger] text.take(i)) <= MAX_COL
}

/// Whether `word` holds no line feed.
pub open spec fn one_line(word: Seq<u8>) -> bool {
    forall|i: int| 0 <= i < word.len() ==> #[trigger] word[i] != 10
}

/// A word without a line feed makes the last line longer by its length.
pub proof fn lemma_tail_append(text: Seq<u8>, word: Seq<u8>)
    requires
        one_line(word),
    ensures
        tail_len(text + word) == tail_len(text) + word.len(),
    decreases word.len(),
{
    if word.len() == 0 {
        assert(text + word =~= text);
    } else {
        lemma_tail_append(text, word.drop_last());
        assert((text + word).drop_last() =~= text + word.drop_last());
        assert((text + word).last() == word[word.len() - 1]);
    }
}

/// Behind a line feed a text's lines are its own.
pub proof fn lemma_tail_fresh(head: Seq<u8>, text: Seq<u8>)
    requires
        tail_len(head) == 0,
    ensures
        tail_len(head + text) == tail_len(text),
    decreases text.len(),
{
    if text.len() == 0 {
        assert(head + text =~= head);
    } else {
        lemma_tail_fresh(head, text.drop_last());
        assert((head + text).drop_last() =~= head + text.drop_last());
        assert((head + text).last() == text[text.len() - 1]);
    }
}

/// A text whose lines fit still fits with a word without a line feed
/// behind it, where the last line has room for the word.
pub proof fn lemma_fit_append(text: Seq<u8>, word: Seq<u8>)
    requires
        lines_fit(text),
        one_line(word),
        tail_len(text) + word.len() <= MAX_COL,
    ensures
        lines_fit(text + word),
        tail_len(text + word) == tail_len(text) + word.len(),
{
    lemma_tail_append(text, word);
    let all = text + word;
    assert forall|i: int| 0 <= i <= all.len() implies tail_len(#[trigger] all.take(i))
        <= MAX_COL by {
        if i <= text.len() {
            assert(all.take(i) =~= text.take(i));
        } else {
            let k = i - text.len();
            assert(all.take(i) =~= text + word.take(k));
            lemma_tail_append(text, word.take(k));
        }
    }
}

/// A text whose lines fit still fits with a line feed behind it.
pub proof fn lemma_fit_break(text: Seq<u8>)
    requires
        lines_fit(text),
    ensures
        lines_fit(text.push(10)),
        tail_len(text.push(10)) == 0,
{
    let all = text.push(10);
    assert forall|i: int| 0 <= i <= all.len() implies tail_len(#[trigger] all.take(i))
        <= MAX_COL by {
        if i <= text.len() {
            assert(all.take(i) =~= text.take(i));
        } else {
            assert(all.take(i) =~= all);
        }
    }
}

/// Two texts whose lines fit make one whose lines fit, where the first
/// ends its last line.
pub proof fn lemma_fit_join(head: Seq<u8>, text: Seq<u8>)
    requires
        lines_fit(head),
        tail_len(head) == 0,
        lines_fit(text),
    ensures
        lines_fit(head + text),
        tail_len(head + text) == tail_len(text),
{
    lemma_tail_fresh(head, text);
    let all = head + text;
    assert forall|i: int| 0 <= i <= all.len() implies tail_len(#[trigger] all.take(i))
        <= MAX_COL by {
        if i <= head.len() {
            assert(all.take(i) =~= head.take(i));
        } else {
            let k = i - head.len();
            assert(all.take(i) =~= head + text.take(k));
            lemma_tail_fresh(head, text.take(k));
        }
    }
}

/// No line of the layout is longer than `MAX_COL`, and its last line is
/// no longer than the writer holds it to be.
pub proof fn lemma_lay_out_fits(samples: Seq<u8>, per_row: int)
    ensures
        lines_fit(lay_out(samples, per_row).text),
        tail_len(lay_out(samples, per_row).text) <= lay_out(samples, per_row).line_length,
    decreases samples.len(),
{
    if samples.len() == 0 {
        let text = lay_out(samples, per_row).text;
        assert forall|i: int| 0 <= i <= text.len() implies tail_len(#[trigger] text.take(i))
            <= MAX_COL by {
            assert(text.take(i) =~= text);
        }
    } else {
        let before = lay_out(samples.drop_last(), per_row);
        let word = digits(samples.last() as nat);
        lemma_lay_out_fits(samples.drop_last(), per_row);
        lemma_lay_out(samples.drop_last(), per_row);
        lemma_digits(samples.last() as nat);
        let wrap = before.line_length + word.len() + 1 > MAX_COL;
        let broken = if wrap {
            before.text.push(10)
        } else {
            before.text
        };
        if wrap {
            lemma_fit_break(before.text);
        }
        let blank = seq![32u8];
        let spaced = if before.column + 1 > 1 {
            broken.push(32)
        } else {
            broken
        };
        if before.column + 1 > 1 {
            assert(broken.push(32) =~= broken + blank);
            lemma_fit_append(broken, blank);
        }
        lemma_fit_append(spaced, word);
        if before.column + 1 >= per_row {
            lemma_fit_break(spaced + word);
        }
    }
}

/// A number that fits a machine word has at most twenty digits.
pub proof fn lemma_digits_of_word(n: nat)
    requires
        n <= usize::MAX,
    ensures
        digits(n).len() <= 20,
{
    reveal_with_fuel(digits, 21);
}

/// No line of the text form is longer than `MAX_COL`.
pub proof fn lemma_ppm_text_fits(width: usize, height: usize, rows: Seq<Vec<Color>>)
    ensures
        lines_fit(ppm_text(width, height, rows)),
{
    let mark = seq![80u8, 51];
    let blank = seq![32u8];
    let scale = seq![50u8, 53, 53];
    lemma_digits(width as nat);
    lemma_digits(height as nat);
    lemma_digits_of_word(width as nat);
    lemma_digits_of_word(height as nat);
    let start = Seq::<u8>::empty();
    assert forall|i: int| 0 <= i <= start.len() implies tail_len(#[trigger] start.take(i))
        <= MAX_COL by {
        assert(start.take(i) =~= start);
    }
    lemma_fit_append(start, mark);
    lemma_fit_break(start + mark);
    let l1 = (start + mark).push(10);
    lemma_fit_append(l1, digits(width as nat));
    lemma_fit_append(l1 + digits(width as nat), blank);
    lemma_fit_append(l1 + digits(width as nat) + blank, digits(height as nat));
    let l2 = l1 + digits(width as nat) + blank + digits(height as nat);
    lemma_fit_break(l2);
    lemma_fit_append(l2.push(10), scale);
    lemma_fit_break(l2.push(10) + scale);
    let head = (l2.push(10) + scale).push(10);
    assert(head =~= header(width, height));
    let body = lay_out(samples_of(rows), 3 * width).text;
    lemma_lay_out_fits(samples_of(rows), 3 * width);
    lemma_fit_join(head, body);
    lemma_fit_break(head + body);
}

/// Whether a byte parts two words: a blank or a line feed.
pub open spec fn is_separator(b: u8) -> bool {
    b == 10 || b == 32
}

/// Whether `word` is a word: not empty, and without a separator.
pub open spec fn is_word(word: Seq<u8>) -> bool {
    &&& word.len() > 0
    &&& forall|i: int| 0 <= i < word.len() ==> !is_separator(#[trigger] word[i])
}

/// The word that `text` ends in: empty where it ends in a separator.
pub open spec fn last_word(text: Seq<u8>) -> Seq<u8>
    decreases text.len(),
{
    if text.len() == 0 || is_separator(text.last()) {
        Seq::empty()
    } else {
        last_word(text.drop_last()).push(text.last())
    }
}

/// The words of `text` that a separator ends, in their order.
pub open spec fn ended_words(text: Seq<u8>) -> Seq<Seq<u8>>
    decreases text.len(),
{
    if text.len() == 0 {
        Seq::empty()
    } else if is_separator(text.last()) && last_word(text.drop_last()).len() > 0 {
        ended_words(text.drop_last()).push(last_word(text.drop_last()))
    } else {
        ended_words(text.drop_last())
    }
}

/// The words of `text`, in their order.
pub open spec fn words(text: Seq<u8>) -> Seq<Seq<u8>> {
    if last_word(text).len() > 0 {
        ended_words(text).push(last_word(text))
    } else {
        ended_words(text)
    }
}

/// The samples as they are written: each in decimal digits.
pub open spec fn sample_words(samples: Seq<u8>) -> Seq<Seq<u8>> {
    Seq::new(samples.len(), |i: int| digits(samples[i] as nat))
}

/// A separator behind a text adds no word, and ends the last one.
pub proof fn lemma_words_separator(text: Seq<u8>, b: u8)
    requires
        is_separator(b),
    ensures
        words(text.push(b)) == words(text),
        last_word(text.push(b)) == Seq::<u8>::empty(),
        ended_words(text.push(b)) == words(text),
{
    assert(text.push(b).drop_last() =~= text);
}

/// A word behind a text that ends no word is one more word.
pub proof fn lemma_words_append(text: Seq<u8>, word: Seq<u8>)
    requires
        last_word(text).len() == 0,
        forall|i: int| 0 <= i < word.len() ==> !is_separator(#[trigger] word[i]),
    ensures
        last_word(text + word) == word,
        ended_words(text + word) == ended_words(text),
    decreases word.len(),
{
    if word.len() == 0 {
        assert(text + word =~= text);
        assert(last_word(text) =~= word);
    } else {
        lemma_words_append(text, word.drop_last());
        assert((text + word).drop_last() =~= text + word.drop_last());
        assert((text + word).last() == word[word.len() - 1]);
        assert(word.drop_last().push(word.last()) =~= word);
    }
}

/// Behind a text that ends in a separator, a text's words follow the
/// first text's.
pub proof fn lemma_words_join(head: Seq<u8>, text: Seq<u8>)
    requires
        last_word(head).len() == 0,
    ensures
        last_word(head + text) == last_word(text),
        ended_words(head + text) == ended_words(head) + ended_words(text),
        words(head + text) == words(head) + words(text),
    decreases text.len(),
{
    if text.len() == 0 {
        assert(head + text =~= head);
        assert(last_word(head) =~= last_word(text));
        assert(ended_words(head) + ended_words(text) =~= ended_words(head));
    } else {
        lemma_words_join(head, text.drop_last());
        assert((head + text).drop_last() =~= head + text.drop_last());
        assert((head + text).last() == text[text.len() - 1]);
        let front = text.drop_last();
        if is_separator(text.last()) && last_word(front).len() > 0 {
            assert(ended_words(head) + ended_words(front).push(last_word(front)) =~= (ended_words(
                head,
            ) + ended_words(front)).push(last_word(front)));
        }
    }
    if last_word(text).len() > 0 {
        assert(ended_words(head) + ended_words(text).push(last_word(text)) =~= (ended_words(head)
            + ended_words(text)).push(last_word(text)));
    }
}

/// The words of the layout are the samples, each in decimal digits and in
/// the order of the samples; the layout ends a word wherever a row is
/// full.
pub proof fn lemma_lay_out_words(samples: Seq<u8>, per_row: int)
    ensures
        words(lay_out(samples, per_row).text) == sample_words(samples),
        lay_out(samples, per_row).column >= 0,
        lay_out(samples, per_row).column == 0 ==> last_word(lay_out(samples, per_row).text).len()
            == 0,
    decreases samples.len(),
{
    if samples.len() == 0 {
        assert(sample_words(samples) =~= Seq::<Seq<u8>>::empty());
    } else {
        let front = samples.drop_last();
        let before = lay_out(front, per_row);
        let word = digits(samples.last() as nat);
        lemma_lay_out_words(front, per_row);
        lemma_digits(samples.last() as nat);
        let wrap = before.line_length + word.len() + 1 > MAX_COL;
        let broken = if wrap {
            before.text.push(10)
        } else {
            before.text
        };
        if wrap {
            lemma_words_separator(before.text, 10);
        }
        let spaced = if before.column + 1 > 1 {
            broken.push(32)
        } else {
            broken
        };
        if before.column + 1 > 1 {
            lemma_words_separator(broken, 32);
        }
        assert(last_word(spaced).len() == 0);
        assert(words(spaced) == sample_words(front));
        lemma_words_append(spaced, word);
        assert(words(spaced + word) == sample_words(front).push(word));
        if before.column + 1 >= per_row {
            lemma_words_separator(spaced + word, 10);
        }
        assert(sample_words(front).push(word) =~= sample_words(samples));
    }
}

/// The words of the text form are the format's mark, the width, the
/// height, the top of the scale, and then the samples.
pub proof fn lemma_ppm_text_words(width: usize, height: usize, rows: Seq<Vec<Color>>)
    ensures
        words(ppm_text(width, height, rows)) == seq![
            seq![80u8, 51],
            digits(width as nat),
            digits(height as nat),
            seq![50u8, 53, 53],
        ] + sample_words(samples_of(rows)),
{
    let mark = seq![80u8, 51];
    let scale = seq![50u8, 53, 53];
    let w = digits(width as nat);
    let h = digits(height as nat);
    lemma_digits(width as nat);
    lemma_digits(height as nat);
    let start = Seq::<u8>::empty();
    lemma_words_append(start, mark);
    lemma_words_separator(start + mark, 10);
    let l1 = (start + mark).push(10);
    assert(words(l1) =~= seq![mark]);
    lemma_words_append(l1, w);
    lemma_words_separator(l1 + w, 32);
    let l2 = (l1 + w).push(32);
    assert(words(l2) =~= seq![mark, w]);
    lemma_words_append(l2, h);
    lemma_words_separator(l2 + h, 10);
    let l3 = (l2 + h).push(10);
    assert(words(l3) =~= seq![mark, w, h]);
    lemma_words_append(l3, scale);
    lemma_words_separator(l3 + scale, 10);
    let head = (l3 + scale).push(10);
    assert(words(head) =~= seq![mark, w, h, scale]);
    assert(head =~= header(width, height));
    let body = lay_out(samples_of(rows), 3 * width).text;
    lemma_lay_out_words(samples_of(rows), 3 * width);
    lemma_words_join(head, body);
    lemma_words_separator(head + body, 10);
}

/// Turns ASCII bytes into a string. This calls `String::from_utf8` of the
/// standard library, of which the contract claims that it maps each byte
/// below 128 to the character with that code, in order.
#[verifier::external_body]
fn string_from_ascii(bytes: Vec<u8>) -> (r: String)
    requires
        forall|i: int| 0 <= i < bytes.len() ==> bytes[i] < 128,
    ensures
        r@ == bytes@.map_values(|b: u8| b as char),
{
    match String::from_utf8(bytes) {
        Ok(text) => text,
        Err(_) => String::new(),
    }
}

impl Canvas {
    /// Whether the canvas holds `height` rows of `width` pixels.
    pub open spec fn wf(&self) -> bool {
        &&& self.canvas@.len() == self.height
        &&& forall|y: int| 0 <= y < self.height ==> (#[trigger] self.canvas@[y])@.len() == self.width
    }

    /// The colour of the pixel at column `x` of row `y`.
    pub open spec fn pixel(&self, x: int, y: int) -> Color {
        self.canvas@[y]@[x]
    }

    /// A canvas of the given size, all black.
    pub fn new(width: usize, height: usize) -> (r: Canvas)
        ensures
            r.wf(),
            r.width == width,
            r.height == height,
            forall|x: int, y: int|
                0 <= x < width && 0 <= y < height ==> r.pixel(x, y) == (Color {
                    red: 0,
                    green: 0,
                    blue: 0,
                }),
    {
        let mut rows: Vec<Vec<Color>> = Vec::new();
        let mut y: usize = 0;
        while y < height
            invariant
                0 <= y <= height,
                rows@.len() == y,
                forall|j: int| 0 <= j < y ==> (#[trigger] rows@[j])@.len() == width,
                forall|i: int, j: int|
                    0 <= i < width && 0 <= j < y ==> rows@[j]@[i] == (Color {
                        red: 0,
                        green: 0,
                        blue: 0,
                    }),
            decreases height - y,
        {
            let mut row: Vec<Color> = Vec::new();
            let mut x: usize = 0;
            while x < width
                invariant
                    0 <= x <= width,
                    row@.len() == x,
                    forall|i: int|
                        0 <= i < x ==> row@[i] == (Color { red: 0, green: 0, blue: 0 }),
                decreases width - x,
            {
                row.push(Color { red: 0, green: 0, blue: 0 });
                x += 1;
            }
            rows.push(row);
            y += 1;
        }
        Canvas { width, height, canvas: rows }
    }

    /// Sets the pixel at column `x` of row `y`.
    pub fn set_pixel(&mut self, x: usize, y: usize, c: &Color)
        requires
            old(self).wf(),
            x < old(self).width,
            y < old(self).height,
        ensures
            final(self).wf(),
            final(self).width == old(self).width,
            final(self).height == old(self).height,
            final(self).pixel(x as int, y as int) == *c,
            forall|i: int, j: int|
                0 <= i < old(self).width && 0 <= j < old(self).height && !(i == x && j == y)
                    ==> final(self).pixel(i, j) == old(self).pixel(i, j),
    {
        self.canvas[y][x] = *c;
    }

    /// The samples of all pixels, row by row from the top.
    pub fn samples(&self) -> (r: Vec<u8>)
        ensures
            r@ == samples_of(self.canvas@),
    {
        let mut out: Vec<u8> = Vec::new();
        let mut y: usize = 0;
        proof {
            assert(self.canvas@.take(0) =~= Seq::empty());
        }
        while y < self.canvas.len()
            invariant
                0 <= y <= self.canvas.len(),
                out@ == samples_of(self.canvas@.take(y as int)),
            decreases self.canvas.len() - y,
        {
            let row = &self.canvas[y];
            let ghost before = out@;
            let mut x: usize = 0;
            proof {
                assert(row@.take(0) =~= Seq::empty());
                assert(out@ =~= before + row_samples(row@.take(0)));
            }
            while x < row.len()
                invariant
                    0 <= x <= row.len(),
                    out@ == before + row_samples(row@.take(x as int)),
                decreases row.len() - x,
            {
                let c = row[x];
                out.push(sample(c.red));
                out.push(sample(c.green));
                out.push(sample(c.blue));
                proof {
                    assert(row@.take(x + 1).drop_last() =~= row@.take(x as int));
                    assert(out@ =~= before + row_samples(row@.take(x + 1)));
                }
                x += 1;
            }
            proof {
                assert(row@.take(row.len() as int) =~= row@);
                assert(self.canvas@.take(y + 1).drop_last() =~= self.canvas@.take(y as int));
            }
            y += 1;
        }
        proof {
            assert(self.canvas@.take(self.canvas.len() as int) =~= self.canvas@);
        }
        out
    }

    /// The text form of the canvas, as bytes.
    pub fn write_ppm_bytes(&self) -> (r: Vec<u8>)
        ensures
            r@ == ppm_text(self.width, self.height, self.canvas@),
            lines_fit(r@),
            words(r@) == seq![
                seq![80u8, 51],
                digits(self.width as nat),
                digits(self.height as nat),
                seq![50u8, 53, 53],
            ] + sample_words(samples_of(self.canvas@)),
    {
        let samples = self.samples();
        let mut out: Vec<u8> = Vec::new();
        out.push(80);
        out.push(51);
        out.push(10);
        push_digits(&mut out, self.width);
        out.push(32);
        push_digits(&mut out, self.height);
        out.push(10);
        out.push(50);
        out.push(53);
        out.push(53);
        out.push(10);
        let ghost head = out@;
        let ghost per_row: int = 3 * self.width;
        proof {
            assert(head =~= header(self.width, self.height));
            assert(samples@.take(0) =~= Seq::empty());
            assert(out@ =~= head + lay_out(samples@.take(0), per_row).text);
        }
        let mut line_length: usize = 0;
        let mut cur_col: usize = 0;
        let mut k: usize = 0;
        while k < samples.len()
            invariant
                0 <= k <= samples.len(),
                per_row == 3 * self.width,
                out@ == head + lay_out(samples@.take(k as int), per_row).text,
                line_length == lay_out(samples@.take(k as int), per_row).line_length,
                cur_col == lay_out(samples@.take(k as int), per_row).column,
            decreases samples.len() - k,
        {
            let ghost before = lay_out(samples@.take(k as int), per_row);
            proof {
                lemma_lay_out(samples@.take(k as int), per_row);
                lemma_digits(samples@[k as int] as nat);
                assert(samples@.take(k + 1).drop_last() =~= samples@.take(k as int));
            }
            let mut word: Vec<u8> = Vec::new();
            push_digits(&mut word, samples[k] as usize);
            assert(word@ =~= digits(samples@[k as int] as nat));
            cur_col += 1;
            if line_length + word.len() + 1 > MAX_COL {
                out.push(10);
                line_length = 0;
            }
            if cur_col > 1 {
                out.push(32);
                line_length += 1;
            }
            push_all(&mut out, &word);
            if cur_col as u128 >= 3 * (self.width as u128) {
                out.push(10);
                cur_col = 0;
                line_length = 0;
            }
            line_length += word.len();
            proof {
                let after = place(before, word@, per_row);
                assert(lay_out(samples@.take(k + 1), per_row) == after);
                assert(out@ =~= head + after.text);
            }
            k += 1;
        }
        proof {
            assert(samples@.take(samples.len() as int) =~= samples@);
        }
        out.push(10);
        proof {
            assert(out@ =~= ppm_text(self.width, self.height, self.canvas@));
            lemma_ppm_text_fits(self.width, self.height, self.canvas@);
            lemma_ppm_text_words(self.width, self.height, self.canvas@);
        }
        out
    }

    /// The text form of the canvas: the header, then the samples of each
    /// row, with no line longer than `MAX_COL`.
    pub fn write_ppm_str(&self) -> (r: String)
        ensures
            r@ == ppm_text(self.width, self.height, self.canvas@).map_values(|b: u8| b as char),
    {
        let bytes = self.write_ppm_bytes();
        proof {
            lemma_ppm_text_plain(self.width, self.height, self.canvas@);
        }
        string_from_ascii(bytes)
    }

    /// The pixel at column `x` of row `y`.
    pub fn get_pixel(&self, x: usize, y: usize) -> (r: Color)
        requires
            self.wf(),
            x < self.width,
            y < self.height,
        ensures
            r == self.pixel(x as int, y as int),
    {
        self.canvas[y][x]
    }
}

} // verus!
