//! What stands on the screen: the words of each line, and the columns of the processes.

use crate::number::{decimal, law_decimal_reads_back, lemma_decimal_is_a_word, two_digits};
use crate::order::{is_ranking, lemma_ranking_exists, lemma_ranking_unique, outranks, ranking};
use crate::snapshot::{GpuView, ProcessView, Snapshot};
use crate::text::{
    begins, blank, complete, ends, law_a_word_reads_back, law_one_line_more,
    law_trimming_takes_the_blanks, law_white_space_holds_no_words, law_words_of_both,
    lemma_blank_words, lemma_word_ends, one_line, text_lines, text_words, trimmed, views,
    whitespace, wordlike, words_from,
};
use crate::ui::{
    activity_line_of, after_key, bar_of, bytes_of, card_of, cpu_line_of, duration_of, filled_up,
    frame_of, gpu_summary_of, head_of, key_of, keys_of, law_a_duration_is_its_minutes,
    law_a_frame_fills_the_terminal, law_small_amounts_are_exact, line_feeds, memory_line_of,
    name_width, nearest, padded, repeated, rest_of, rounded, row_of, rows_of, shortened, shown,
    size_of, spacing, title_of, unit_bytes, unit_name, unit_of, with_decimal, Gauges, SortBy,
};
use vstd::prelude::*;

verus! {

/// The blanks before a text that is padded.
spec fn padding(text: Seq<char>, width: nat) -> Seq<char> {
    if text.len() < width {
        repeated(" "@, (width - text.len()) as nat)
    } else {
        Seq::empty()
    }
}

proof fn lemma_repeated_blank(count: nat)
    ensures
        blank(repeated(" "@, count)),
        repeated(" "@, count).len() == count,
    decreases count,
{
    reveal_strlit(" ");
    if count > 0 {
        lemma_repeated_blank((count - 1) as nat);
    }
}

proof fn lemma_padding(text: Seq<char>, width: nat)
    ensures
        padded(text, width) == padding(text, width) + text,
        blank(padding(text, width)),
        blank(" "@ + padding(text, width)),
        (" "@ + padding(text, width)).len() > 0,
        text.len() <= width ==> padded(text, width).len() == width,
{
    reveal_strlit(" ");
    if text.len() < width {
        lemma_repeated_blank((width - text.len()) as nat);
    }
    assert(padded(text, width) =~= padding(text, width) + text);
}

proof fn lemma_blanks()
    ensures
        " "@ == seq![' '],
        "  "@ == seq![' ', ' '],
        "\n"@ == seq!['\n'],
{
    reveal_strlit(" ");
    reveal_strlit("  ");
    reveal_strlit("\n");
    assert(" "@ =~= seq![' ']);
    assert("  "@ =~= seq![' ', ' ']);
    assert("\n"@ =~= seq!['\n']);
}

/// A word behind white space is one word more.
proof fn lemma_word(text: Seq<char>, blanks: Seq<char>, word: Seq<char>)
    requires
        blank(blanks),
        blanks.len() > 0,
        wordlike(word),
    ensures
        text_words(text + blanks + word) == text_words(text).push(word),
{
    let none = Seq::<char>::empty();
    law_a_word_reads_back(blanks, word, none);
    law_white_space_holds_no_words(none);
    assert(blanks + word + none =~= blanks + word);
    assert((blanks + word)[0] == blanks[0]);
    law_words_of_both(text, blanks + word);
    assert(text + blanks + word =~= text + (blanks + word));
    assert(seq![word] + text_words(none) =~= seq![word]);
    assert(text_words(text) + seq![word] =~= text_words(text).push(word));
}

/// A word that is padded, behind a blank, is one word more.
proof fn lemma_cell(text: Seq<char>, word: Seq<char>, width: nat)
    requires
        wordlike(word),
    ensures
        text_words(text + " "@ + padded(word, width)) == text_words(text).push(word),
{
    lemma_padding(word, width);
    let blanks = " "@ + padding(word, width);
    lemma_word(text, blanks, word);
    assert(text + " "@ + padded(word, width) =~= text + blanks + word);
}

proof fn lemma_two_wordlike(a: Seq<char>, b: Seq<char>)
    requires
        wordlike(a),
        wordlike(b),
    ensures
        wordlike(a + b),
{
    assert forall|i: int| 0 <= i < (a + b).len() implies !whitespace(#[trigger] (a + b)[i]) by {
        if i < a.len() {
            assert((a + b)[i] == a[i]);
        } else {
            assert((a + b)[i] == b[i - a.len()]);
        }
    }
}

proof fn lemma_amount_is_a_word(value: u64)
    ensures
        wordlike(bytes_of(value)),
{
    reveal_strlit(".");
    reveal_strlit("B");
    reveal_strlit("KiB");
    reveal_strlit("MiB");
    reveal_strlit("GiB");
    reveal_strlit("TiB");
    let amount = rounded(value as nat);
    let unit = unit_of(amount);
    let tenths = nearest(amount * 10, unit_bytes(unit));
    lemma_decimal_is_a_word(tenths / 10);
    lemma_decimal_is_a_word(tenths % 10);
    lemma_two_wordlike(decimal(tenths / 10), "."@);
    lemma_two_wordlike(decimal(tenths / 10) + "."@, decimal(tenths % 10));
    assert(wordlike(unit_name(unit)));
    lemma_two_wordlike(with_decimal(tenths), unit_name(unit));
}

/// The words of a row are, one after the other, the id of the process, its state, its share
/// of the CPU, its resident memory, what it has read and written, what it has received and
/// sent, its share of the GPU and its video memory, and then those of its name.
#[verifier::spinoff_prover]
#[verifier::rlimit(60)]
pub proof fn law_the_words_of_a_row(process: ProcessView, width: nat)
    requires
        !whitespace(process.state),
        wordlike(process.cpu_percent.tenths),
        wordlike(process.gpu_percent.tenths),
    ensures
        ({
            let words = text_words(row_of(process, width));
            &&& words.len() >= 10
            &&& words[0] == decimal(process.pid as nat)
            &&& words[1] == seq![process.state]
            &&& words[2] == process.cpu_percent.tenths
            &&& words[3] == bytes_of(process.rss_bytes)
            &&& words[4] == bytes_of(process.read_bytes)
            &&& words[5] == bytes_of(process.write_bytes)
            &&& words[6] == bytes_of(process.network_receive_bytes)
            &&& words[7] == bytes_of(process.network_transmit_bytes)
            &&& words[8] == process.gpu_percent.tenths
            &&& words[9] == bytes_of(process.gpu_vram_bytes)
            &&& wordlike(process.name) && process.name.len() <= width - 84 ==> words.len() == 11
                && words[10] == process.name
        }),
{
    let name = shortened(process.name, name_width(width));
    let none = Seq::<char>::empty();
    lemma_blanks();
    lemma_decimal_is_a_word(process.pid as nat);
    lemma_amount_is_a_word(process.rss_bytes);
    lemma_amount_is_a_word(process.read_bytes);
    lemma_amount_is_a_word(process.write_bytes);
    lemma_amount_is_a_word(process.network_receive_bytes);
    lemma_amount_is_a_word(process.network_transmit_bytes);
    lemma_amount_is_a_word(process.gpu_vram_bytes);
    lemma_cell(none, decimal(process.pid as nat), 7);
    let a = none + " "@ + padded(decimal(process.pid as nat), 7);
    lemma_word(a, " "@, seq![process.state]);
    let b = a + " "@ + seq![process.state];
    lemma_cell(b, process.cpu_percent.tenths, 7);
    let c = b + " "@ + padded(process.cpu_percent.tenths, 7);
    lemma_cell(c, bytes_of(process.rss_bytes), 8);
    let d = c + " "@ + padded(bytes_of(process.rss_bytes), 8);
    lemma_cell(d, bytes_of(process.read_bytes), 8);
    let e = d + " "@ + padded(bytes_of(process.read_bytes), 8);
    lemma_cell(e, bytes_of(process.write_bytes), 8);
    let f = e + " "@ + padded(bytes_of(process.write_bytes), 8);
    lemma_cell(f, bytes_of(process.network_receive_bytes), 8);
    let g = f + " "@ + padded(bytes_of(process.network_receive_bytes), 8);
    lemma_cell(g, bytes_of(process.network_transmit_bytes), 8);
    let h = g + " "@ + padded(bytes_of(process.network_transmit_bytes), 8);
    lemma_cell(h, process.gpu_percent.tenths, 7);
    let i = h + " "@ + padded(process.gpu_percent.tenths, 7);
    lemma_cell(i, bytes_of(process.gpu_vram_bytes), 8);
    let j = i + " "@ + padded(bytes_of(process.gpu_vram_bytes), 8);
    assert(none + " "@ =~= " "@);
    let rest = "  "@ + name + "\n"@;
    assert(row_of(process, width) =~= j + rest);
    law_white_space_holds_no_words(none);
    law_words_of_both(j, rest);
    if wordlike(process.name) && process.name.len() <= width - 84 {
        law_a_word_reads_back("  "@, process.name, "\n"@);
        law_white_space_holds_no_words("\n"@);
        assert(text_words(rest) =~= seq![process.name]);
    }
}

/// The line above the processes.
pub open spec fn heading() -> Seq<char> {
    "\x1b[1m     PID S    CPU%      RSS     READ    WRITE    NETRX    NETTX    GPU%     VRAM  NAME\x1b[0m\n"@
}

proof fn lemma_next_word(text: Seq<char>, at: int, start: int, end: int)
    requires
        0 <= at <= start < end <= text.len(),
        forall|i: int| at <= i < start ==> whitespace(#[trigger] text[i]),
        forall|i: int| start <= i < end ==> !whitespace(#[trigger] text[i]),
        end < text.len() ==> whitespace(text[end]),
    ensures
        words_from(text, at) == seq![text.subrange(start, end)] + words_from(text, end),
{
    lemma_blank_words(text, at, start);
    lemma_word_ends(text, start, end);
    assert(!whitespace(text[start]));
}

/// The words of the heading name the columns.
#[verifier::spinoff_prover]
#[verifier::rlimit(60)]
pub proof fn law_the_heading_names_the_columns()
    ensures
        text_words(heading()).len() == 12,
        text_words(heading())[1] == "PID"@,
        text_words(heading())[2] == "S"@,
        text_words(heading())[3] == "CPU%"@,
        text_words(heading())[4] == "RSS"@,
        text_words(heading())[5] == "READ"@,
        text_words(heading())[6] == "WRITE"@,
        text_words(heading())[7] == "NETRX"@,
        text_words(heading())[8] == "NETTX"@,
        text_words(heading())[9] == "GPU%"@,
        text_words(heading())[10] == "VRAM"@,
{
    let text = heading();
    reveal_strlit("\x1b[1m     PID S    CPU%      RSS     READ    WRITE    NETRX    NETTX    GPU%     VRAM  NAME\x1b[0m\n");
    assert(text.len() == 95);
    lemma_next_word(text, 0, 0, 4);
    lemma_next_word(text, 4, 9, 12);
    lemma_next_word(text, 12, 13, 14);
    lemma_next_word(text, 14, 18, 22);
    lemma_next_word(text, 22, 28, 31);
    lemma_next_word(text, 31, 36, 40);
    lemma_next_word(text, 40, 44, 49);
    lemma_next_word(text, 49, 53, 58);
    lemma_next_word(text, 58, 62, 67);
    lemma_next_word(text, 67, 71, 75);
    lemma_next_word(text, 75, 80, 84);
    lemma_next_word(text, 84, 86, 94);
    assert(words_from(text, 94) =~= Seq::<Seq<char>>::empty()) by {
        lemma_blank_words(text, 94, 95);
    }
    reveal_strlit("PID");
    reveal_strlit("S");
    reveal_strlit("CPU%");
    reveal_strlit("RSS");
    reveal_strlit("READ");
    reveal_strlit("WRITE");
    reveal_strlit("NETRX");
    reveal_strlit("NETTX");
    reveal_strlit("GPU%");
    reveal_strlit("VRAM");
    assert(text.subrange(9, 12) =~= "PID"@);
    assert(text.subrange(13, 14) =~= "S"@);
    assert(text.subrange(18, 22) =~= "CPU%"@);
    assert(text.subrange(28, 31) =~= "RSS"@);
    assert(text.subrange(36, 40) =~= "READ"@);
    assert(text.subrange(44, 49) =~= "WRITE"@);
    assert(text.subrange(53, 58) =~= "NETRX"@);
    assert(text.subrange(62, 67) =~= "NETTX"@);
    assert(text.subrange(71, 75) =~= "GPU%"@);
    assert(text.subrange(80, 84) =~= "VRAM"@);
}

/// The head of the screen ends in the heading.
pub proof fn law_the_head_ends_in_the_heading(snapshot: Snapshot, listen: Seq<char>, gauges: Gauges)
    ensures
        ({
            let head = head_of(snapshot, listen, gauges);
            head.len() >= heading().len() && head.skip(head.len() - heading().len()) == heading()
        }),
{
    let head = head_of(snapshot, listen, gauges);
    assert(head.skip(head.len() - heading().len()) =~= heading());
}

/// Whether an amount fits into its column.
pub open spec fn fits(process: ProcessView) -> bool {
    &&& decimal(process.pid as nat).len() <= 7
    &&& process.cpu_percent.tenths.len() <= 7
    &&& bytes_of(process.rss_bytes).len() <= 8
    &&& bytes_of(process.read_bytes).len() <= 8
    &&& bytes_of(process.write_bytes).len() <= 8
    &&& bytes_of(process.network_receive_bytes).len() <= 8
    &&& bytes_of(process.network_transmit_bytes).len() <= 8
    &&& process.gpu_percent.tenths.len() <= 7
    &&& bytes_of(process.gpu_vram_bytes).len() <= 8
}

/// What stands in a text from one position to another, without the blanks around it.
pub open spec fn cell(text: Seq<char>, start: int, end: int) -> Seq<char> {
    trimmed(text.subrange(start, end))
}

proof fn lemma_column(text: Seq<char>, word: Seq<char>, width: nat)
    requires
        wordlike(word),
        word.len() <= width,
    ensures
        ({
            let next = text + " "@ + padded(word, width);
            &&& next.len() == text.len() + 1 + width
            &&& next.take(text.len() as int) == text
            &&& cell(next, text.len() as int, text.len() as int + 1 + width) == word
        }),
{
    let next = text + " "@ + padded(word, width);
    let none = Seq::<char>::empty();
    lemma_blanks();
    lemma_padding(word, width);
    assert(next.take(text.len() as int) =~= text);
    assert(!whitespace(word[0]) && !whitespace(word[word.len() - 1]));
    law_trimming_takes_the_blanks(" "@ + padding(word, width), word, none);
    assert(next.subrange(text.len() as int, text.len() as int + 1 + width) =~= " "@ + padding(
        word,
        width,
    ) + word + none);
}

proof fn lemma_cut_cell(text: Seq<char>, from: int, start: int, end: int)
    requires
        0 <= from <= start < end <= text.len(),
        forall|i: int| from <= i < start ==> whitespace(#[trigger] text[i]),
        !whitespace(text[start]),
        !whitespace(text[end - 1]),
    ensures
        cell(text, from, end) == text.subrange(start, end),
{
    let none = Seq::<char>::empty();
    let before = text.subrange(from, start);
    assert forall|i: int| 0 <= i < before.len() implies whitespace(#[trigger] before[i]) by {
        assert(before[i] == text[from + i]);
    }
    law_trimming_takes_the_blanks(before, text.subrange(start, end), none);
    assert(text.subrange(from, end) =~= before + text.subrange(start, end) + none);
}

/// The columns of the heading, each with its name at the right.
#[verifier::spinoff_prover]
#[verifier::rlimit(60)]
proof fn lemma_heading_columns()
    ensures
        ({
            let head = heading().skip(4);
            &&& cell(head, 0, 8) == "PID"@
            &&& cell(head, 8, 10) == "S"@
            &&& cell(head, 10, 18) == "CPU%"@
            &&& cell(head, 18, 27) == "RSS"@
            &&& cell(head, 27, 36) == "READ"@
            &&& cell(head, 36, 45) == "WRITE"@
            &&& cell(head, 45, 54) == "NETRX"@
            &&& cell(head, 54, 63) == "NETTX"@
            &&& cell(head, 63, 71) == "GPU%"@
            &&& cell(head, 71, 80) == "VRAM"@
        }),
{
    let head = heading().skip(4);
    reveal_strlit("\x1b[1m     PID S    CPU%      RSS     READ    WRITE    NETRX    NETTX    GPU%     VRAM  NAME\x1b[0m\n");
    lemma_cut_cell(head, 0, 5, 8);
    lemma_cut_cell(head, 8, 9, 10);
    lemma_cut_cell(head, 10, 14, 18);
    lemma_cut_cell(head, 18, 24, 27);
    lemma_cut_cell(head, 27, 32, 36);
    lemma_cut_cell(head, 36, 40, 45);
    lemma_cut_cell(head, 45, 49, 54);
    lemma_cut_cell(head, 54, 58, 63);
    lemma_cut_cell(head, 63, 67, 71);
    lemma_cut_cell(head, 71, 76, 80);
    reveal_strlit("PID");
    assert(head.subrange(5, 8) =~= "PID"@);
    reveal_strlit("S");
    assert(head.subrange(9, 10) =~= "S"@);
    reveal_strlit("CPU%");
    assert(head.subrange(14, 18) =~= "CPU%"@);
    reveal_strlit("RSS");
    assert(head.subrange(24, 27) =~= "RSS"@);
    reveal_strlit("READ");
    assert(head.subrange(32, 36) =~= "READ"@);
    reveal_strlit("WRITE");
    assert(head.subrange(40, 45) =~= "WRITE"@);
    reveal_strlit("NETRX");
    assert(head.subrange(49, 54) =~= "NETRX"@);
    reveal_strlit("NETTX");
    assert(head.subrange(58, 63) =~= "NETTX"@);
    reveal_strlit("GPU%");
    assert(head.subrange(67, 71) =~= "GPU%"@);
    reveal_strlit("VRAM");
    assert(head.subrange(76, 80) =~= "VRAM"@);
}

proof fn lemma_prefix(text: Seq<char>, before: Seq<char>, end: int, start: int)
    requires
        0 <= start <= end <= before.len() <= text.len(),
        text.take(before.len() as int) == before,
    ensures
        cell(text, start, end) == cell(before, start, end),
{
    assert(text.subrange(start, end) =~= before.subrange(start, end)) by {
        assert forall|i: int| start <= i < end implies text[i] == before[i] by {
            assert(text.take(before.len() as int)[i] == text[i]);
        }
    }
}

proof fn lemma_takes(text: Seq<char>, a: Seq<char>, b: Seq<char>)
    requires
        a.len() <= b.len() <= text.len(),
        text.take(b.len() as int) == b,
        b.take(a.len() as int) == a,
    ensures
        text.take(a.len() as int) == a,
{
    assert(text.take(b.len() as int).take(a.len() as int) =~= text.take(a.len() as int));
}

/// Where the cells of a row fit into their columns, each stands in the column that the
/// heading names: cut from one column to the next, a row gives the amount of what stands
/// above it.
#[verifier::spinoff_prover]
#[verifier::rlimit(60)]
pub proof fn law_cells_stand_in_their_columns(process: ProcessView, width: nat)
    requires
        fits(process),
        !whitespace(process.state),
        wordlike(process.cpu_percent.tenths),
        wordlike(process.gpu_percent.tenths),
    ensures
        ({
            let row = row_of(process, width);
            let head = heading().skip(4);
            &&& cell(row, 0, 8) == decimal(process.pid as nat) && cell(head, 0, 8) == "PID"@
            &&& cell(row, 8, 10) == seq![process.state] && cell(head, 8, 10) == "S"@
            &&& cell(row, 10, 18) == process.cpu_percent.tenths && cell(head, 10, 18) == "CPU%"@
            &&& cell(row, 18, 27) == bytes_of(process.rss_bytes) && cell(head, 18, 27) == "RSS"@
            &&& cell(row, 27, 36) == bytes_of(process.read_bytes) && cell(head, 27, 36) == "READ"@
            &&& cell(row, 36, 45) == bytes_of(process.write_bytes) && cell(head, 36, 45)
                == "WRITE"@
            &&& cell(row, 45, 54) == bytes_of(process.network_receive_bytes) && cell(head, 45, 54)
                == "NETRX"@
            &&& cell(row, 54, 63) == bytes_of(process.network_transmit_bytes) && cell(head, 54, 63)
                == "NETTX"@
            &&& cell(row, 63, 71) == process.gpu_percent.tenths && cell(head, 63, 71) == "GPU%"@
            &&& cell(row, 71, 80) == bytes_of(process.gpu_vram_bytes) && cell(head, 71, 80)
                == "VRAM"@
        }),
{
    lemma_heading_columns();
    let row = row_of(process, width);
    let none = Seq::<char>::empty();
    lemma_blanks();
    lemma_decimal_is_a_word(process.pid as nat);
    lemma_amount_is_a_word(process.rss_bytes);
    lemma_amount_is_a_word(process.read_bytes);
    lemma_amount_is_a_word(process.write_bytes);
    lemma_amount_is_a_word(process.network_receive_bytes);
    lemma_amount_is_a_word(process.network_transmit_bytes);
    lemma_amount_is_a_word(process.gpu_vram_bytes);
    lemma_column(none, decimal(process.pid as nat), 7);
    let a = none + " "@ + padded(decimal(process.pid as nat), 7);
    let state = seq![process.state];
    assert(padded(state, 1) == state);
    lemma_column(a, state, 1);
    let b = a + " "@ + state;
    lemma_column(b, process.cpu_percent.tenths, 7);
    let c = b + " "@ + padded(process.cpu_percent.tenths, 7);
    lemma_column(c, bytes_of(process.rss_bytes), 8);
    let d = c + " "@ + padded(bytes_of(process.rss_bytes), 8);
    lemma_column(d, bytes_of(process.read_bytes), 8);
    let e = d + " "@ + padded(bytes_of(process.read_bytes), 8);
    lemma_column(e, bytes_of(process.write_bytes), 8);
    let f = e + " "@ + padded(bytes_of(process.write_bytes), 8);
    lemma_column(f, bytes_of(process.network_receive_bytes), 8);
    let g = f + " "@ + padded(bytes_of(process.network_receive_bytes), 8);
    lemma_column(g, bytes_of(process.network_transmit_bytes), 8);
    let h = g + " "@ + padded(bytes_of(process.network_transmit_bytes), 8);
    lemma_column(h, process.gpu_percent.tenths, 7);
    let i = h + " "@ + padded(process.gpu_percent.tenths, 7);
    lemma_column(i, bytes_of(process.gpu_vram_bytes), 8);
    let j = i + " "@ + padded(bytes_of(process.gpu_vram_bytes), 8);
    let rest = "  "@ + shortened(process.name, name_width(width)) + "\n"@;
    assert(none + " "@ =~= " "@);
    assert(row =~= j + rest);
    assert(row.take(80) =~= j);
    lemma_takes(row, i, j);
    lemma_takes(row, h, i);
    lemma_takes(row, g, h);
    lemma_takes(row, f, g);
    lemma_takes(row, e, f);
    lemma_takes(row, d, e);
    lemma_takes(row, c, d);
    lemma_takes(row, b, c);
    lemma_takes(row, a, b);
    lemma_prefix(row, a, 8, 0);
    lemma_prefix(row, b, 10, 8);
    lemma_prefix(row, c, 18, 10);
    lemma_prefix(row, d, 27, 18);
    lemma_prefix(row, e, 36, 27);
    lemma_prefix(row, f, 45, 36);
    lemma_prefix(row, g, 54, 45);
    lemma_prefix(row, h, 63, 54);
    lemma_prefix(row, i, 71, 63);
    lemma_prefix(row, j, 80, 71);
}

/// The cell under a heading tells of one field alone: rows of processes that agree on the
/// field agree on its cell, whatever the others are. What is read never moves what is
/// written, nor the other way round.
pub proof fn law_a_cell_depends_on_its_field(a: ProcessView, b: ProcessView, width: nat)
    requires
        fits(a),
        fits(b),
        !whitespace(a.state),
        !whitespace(b.state),
        wordlike(a.cpu_percent.tenths),
        wordlike(b.cpu_percent.tenths),
        wordlike(a.gpu_percent.tenths),
        wordlike(b.gpu_percent.tenths),
    ensures
        a.read_bytes == b.read_bytes ==> cell(row_of(a, width), 27, 36) == cell(
            row_of(b, width),
            27,
            36,
        ),
        a.write_bytes == b.write_bytes ==> cell(row_of(a, width), 36, 45) == cell(
            row_of(b, width),
            36,
            45,
        ),
        a.network_receive_bytes == b.network_receive_bytes ==> cell(row_of(a, width), 45, 54)
            == cell(row_of(b, width), 45, 54),
        a.network_transmit_bytes == b.network_transmit_bytes ==> cell(row_of(a, width), 54, 63)
            == cell(row_of(b, width), 54, 63),
{
    law_cells_stand_in_their_columns(a, width);
    law_cells_stand_in_their_columns(b, width);
}

/// A number of the nearest whole units is at most half a unit off, and where two are as
/// near it is even.
pub proof fn law_nearest_is_half_a_unit_off(a: nat, b: nat)
    requires
        b > 0,
    ensures
        2 * (nearest(a, b) * b - a) <= b,
        2 * (a - nearest(a, b) * b) <= b,
        2 * (nearest(a, b) * b - a) == b || 2 * (a - nearest(a, b) * b) == b ==> nearest(a, b) % 2
            == 0,
{
    let q = a / b;
    let r = a % b;
    assert(a == b * q + r && 0 <= r < b) by {
        vstd::arithmetic::div_mod::lemma_fundamental_div_mod(a as int, b as int);
        vstd::arithmetic::div_mod::lemma_mod_bound(a as int, b as int);
    }
    assert(b * q == q * b) by (nonlinear_arith);
    assert((q + 1) * b == q * b + b) by (nonlinear_arith);
}

proof fn lemma_spacing(n: nat)
    ensures
        spacing(n) >= 1,
        n < 0x20_0000_0000_0000 ==> spacing(n) == 1,
        n >= 0x10_0000_0000_0000 ==> spacing(n) * 0x10_0000_0000_0000 <= n,
    decreases n,
{
    if n >= 0x20_0000_0000_0000 {
        lemma_spacing(n / 2);
    }
}

/// The amount that is shown is the one that was counted, up to 53 binary digits: it is off
/// by no more than one part in 2 to the 53rd.
pub proof fn law_amounts_are_rounded_little(n: nat)
    ensures
        n < 0x20_0000_0000_0000 ==> rounded(n) == n,
        (rounded(n) - n) * 0x20_0000_0000_0000 <= n,
        (n - rounded(n)) * 0x20_0000_0000_0000 <= n,
{
    lemma_spacing(n);
    if n < 0x20_0000_0000_0000 {
        law_small_amounts_are_exact(n);
    } else {
        law_nearest_is_half_a_unit_off(n, spacing(n));
    }
}

/// An amount of bytes that the screen shows exactly is written in the largest unit that it
/// fills, with the nearest number of tenths of the unit: bytes below 1 KiB, and then in
/// steps of 1024 up to TiB.
pub proof fn law_an_amount_is_its_nearest_tenth(value: u64) -> (tenths: nat)
    requires
        value < 0x20_0000_0000_0000,
    ensures
        ({
            let written = decimal(tenths / 10) + "."@ + decimal(tenths % 10);
            let amount = bytes_of(value);
            &&& value < 1024 ==> amount == written + "B"@ && tenths == 10 * value
            &&& 1024 <= value < 1048576 ==> amount == written + "KiB"@ && 2 * (tenths * 1024 - 10
                * value) <= 1024 && 2 * (10 * value - tenths * 1024) <= 1024
            &&& 1048576 <= value < 1073741824 ==> amount == written + "MiB"@ && 2 * (tenths
                * 1048576 - 10 * value) <= 1048576 && 2 * (10 * value - tenths * 1048576)
                <= 1048576
            &&& 1073741824 <= value < 1099511627776 ==> amount == written + "GiB"@ && 2 * (tenths
                * 1073741824 - 10 * value) <= 1073741824 && 2 * (10 * value - tenths * 1073741824)
                <= 1073741824
            &&& 1099511627776 <= value ==> amount == written + "TiB"@ && 2 * (tenths
                * 1099511627776 - 10 * value) <= 1099511627776 && 2 * (10 * value - tenths
                * 1099511627776) <= 1099511627776
        }),
{
    law_amounts_are_rounded_little(value as nat);
    let size = unit_bytes(unit_of(value as nat));
    law_nearest_is_half_a_unit_off(value as nat * 10, size);
    nearest(value as nat * 10, size)
}

/// The processes stand by what they are sorted by, the largest first: the share of the CPU
/// or of the GPU, the resident memory, what was read or written, or what was received and
/// sent; by their ids the smallest stands first. Those that are equal stay in their order,
/// and each process stands in one place.
pub proof fn law_processes_stand_by_their_order(
    processes: Seq<ProcessView>,
    order: Seq<int>,
    sort: SortBy,
    i: int,
    j: int,
)
    requires
        is_ranking(keys_of(processes, sort), order),
        0 <= i < j < order.len(),
    ensures
        order.len() == processes.len(),
        order[i] != order[j],
        ({
            let a = processes[order[i]];
            let b = processes[order[j]];
            &&& sort == SortBy::Cpu ==> a.cpu_percent.rank >= b.cpu_percent.rank && (
            a.cpu_percent.rank == b.cpu_percent.rank ==> order[i] < order[j])
            &&& sort == SortBy::Memory ==> a.rss_bytes >= b.rss_bytes && (a.rss_bytes
                == b.rss_bytes ==> order[i] < order[j])
            &&& sort == SortBy::Read ==> a.read_bytes >= b.read_bytes && (a.read_bytes
                == b.read_bytes ==> order[i] < order[j])
            &&& sort == SortBy::Write ==> a.write_bytes >= b.write_bytes && (a.write_bytes
                == b.write_bytes ==> order[i] < order[j])
            &&& sort == SortBy::Network && a.network_receive_bytes + a.network_transmit_bytes
                < u64::MAX ==> a.network_receive_bytes + a.network_transmit_bytes >= (
            b.network_receive_bytes + b.network_transmit_bytes)
            &&& sort == SortBy::Gpu ==> a.gpu_percent.rank >= b.gpu_percent.rank && (
            a.gpu_percent.rank == b.gpu_percent.rank ==> order[i] < order[j])
            &&& sort == SortBy::Pid ==> a.pid <= b.pid && (a.pid == b.pid ==> order[i] < order[j])
        }),
{
    let keys = keys_of(processes, sort);
    assert(outranks(keys, order[i], order[j]));
    assert(0 <= order[i] < keys.len() && 0 <= order[j] < keys.len());
    assert(keys[order[i]] == key_of(processes[order[i]], sort));
    assert(keys[order[j]] == key_of(processes[order[j]], sort));
}

/// As many processes are shown as there are, but ten rows of the terminal are kept for
/// what stands around them.
pub proof fn law_ten_rows_are_kept(processes: nat, height: nat)
    ensures
        shown(processes, height) <= processes,
        shown(processes, height) > 0 ==> shown(processes, height) + 10 <= height,
        shown(processes, height) < processes ==> height <= shown(processes, height) + 10,
{
}

proof fn lemma_repeated(c: char, text: Seq<char>, count: nat)
    requires
        text == seq![c],
    ensures
        repeated(text, count).len() == count,
        forall|i: int| 0 <= i < count ==> #[trigger] repeated(text, count)[i] == c,
    decreases count,
{
    if count > 0 {
        lemma_repeated(c, text, (count - 1) as nat);
    }
}

/// A bar is as wide as told: first what is filled, and then what is not.
pub proof fn law_a_bar_is_filled_from_the_left(filled: nat, width: nat)
    requires
        filled <= width,
    ensures
        ({
            let bar = bar_of(filled, width);
            &&& bar.len() == width + 13
            &&& forall|i: int| 0 <= i < filled ==> #[trigger] bar[5 + i] == '█'
            &&& forall|i: int| filled <= i < width ==> #[trigger] bar[9 + i] == '░'
            &&& wordlike(bar)
        }),
{
    reveal_strlit("\x1b[32m");
    reveal_strlit("\x1b[2m");
    reveal_strlit("\x1b[0m");
    reveal_strlit("█");
    reveal_strlit("░");
    let left = (width - filled) as nat;
    assert("█"@ =~= seq!['█']);
    assert("░"@ =~= seq!['░']);
    lemma_repeated('█', "█"@, filled);
    lemma_repeated('░', "░"@, left);
    let bar = bar_of(filled, width);
    let a = "\x1b[32m"@ + repeated("█"@, filled);
    let b = a + "\x1b[2m"@;
    let c = b + repeated("░"@, left);
    assert(bar == c + "\x1b[0m"@);
    assert(a.len() == 5 + filled && b.len() == 9 + filled && c.len() == 9 + width);
    assert forall|i: int| 0 <= i < filled implies #[trigger] bar[5 + i] == '█' by {
        assert(bar[5 + i] == a[5 + i]);
        assert(a[5 + i] == repeated("█"@, filled)[i]);
    }
    assert forall|i: int| filled <= i < width implies #[trigger] bar[9 + i] == '░' by {
        assert(bar[9 + i] == c[9 + i]);
        assert(c[9 + i] == repeated("░"@, left)[i - filled]);
    }
    assert forall|i: int| 0 <= i < bar.len() implies !whitespace(#[trigger] bar[i]) by {
        if i < 5 {
            assert(bar[i] == "\x1b[32m"@[i]);
        } else if i < 5 + filled {
            assert(bar[5 + (i - 5)] == '█');
        } else if i < 9 + filled {
            assert(bar[i] == "\x1b[2m"@[i - 5 - filled]);
        } else if i < 9 + width {
            assert(bar[9 + (i - 9)] == '░');
        } else {
            assert(bar[i] == "\x1b[0m"@[i - 9 - width]);
        }
    }
}

/// The line of the memory tells, word for word, the share that is used, what is used of the
/// memory and all of it, and what is used of the swap space.
#[verifier::spinoff_prover]
#[verifier::rlimit(60)]
pub proof fn law_the_words_of_the_memory_line(snapshot: Snapshot, gauges: Gauges)
    requires
        wordlike(gauges.memory_percent.tenths@),
        gauges.memory_filled <= 24,
    ensures
        ({
            let words = text_words(memory_line_of(snapshot, gauges));
            &&& words.len() == 8
            &&& words[0] == "MEM"@
            &&& words[1] == gauges.memory_percent.tenths@ + "%"@
            &&& words[2] == bar_of(gauges.memory_filled as nat, 24)
            &&& snapshot.memory_available <= snapshot.memory_total ==> words[3] == bytes_of(
                (snapshot.memory_total - snapshot.memory_available) as u64,
            )
            &&& snapshot.memory_total < snapshot.memory_available ==> words[3] == bytes_of(0)
            &&& words[4] == "/"@
            &&& words[5] == bytes_of(snapshot.memory_total)
            &&& words[6] == "SWAP"@
            &&& snapshot.swap_free <= snapshot.swap_total ==> words[7] == bytes_of(
                (snapshot.swap_total - snapshot.swap_free) as u64,
            )
            &&& snapshot.swap_total < snapshot.swap_free ==> words[7] == bytes_of(0)
        }),
{
    let none = Seq::<char>::empty();
    let percent = gauges.memory_percent.tenths@;
    let bar = bar_of(gauges.memory_filled as nat, 24);
    let used = bytes_of(rest_of(snapshot.memory_total, snapshot.memory_available));
    let total = bytes_of(snapshot.memory_total);
    let swap = bytes_of(rest_of(snapshot.swap_total, snapshot.swap_free));
    lemma_blanks();
    law_a_bar_is_filled_from_the_left(gauges.memory_filled as nat, 24);
    lemma_amount_is_a_word(rest_of(snapshot.memory_total, snapshot.memory_available));
    lemma_amount_is_a_word(snapshot.memory_total);
    lemma_amount_is_a_word(rest_of(snapshot.swap_total, snapshot.swap_free));
    law_white_space_holds_no_words(none);
    reveal_strlit(" MEM ");
    reveal_strlit("MEM");
    reveal_strlit("% ");
    reveal_strlit("%");
    reveal_strlit(" / ");
    reveal_strlit("/");
    reveal_strlit("  SWAP ");
    reveal_strlit("SWAP");
    lemma_word(none, " "@, "MEM"@);
    let a = none + " "@ + "MEM"@;
    lemma_two_wordlike(percent, "%"@);
    lemma_padding(percent, 5);
    let pad = " "@ + padding(percent, 5);
    lemma_word(a, pad, percent + "%"@);
    let b = a + pad + (percent + "%"@);
    lemma_word(b, " "@, bar);
    let c = b + " "@ + bar;
    lemma_word(c, "  "@, used);
    let d = c + "  "@ + used;
    lemma_word(d, " "@, "/"@);
    let e = d + " "@ + "/"@;
    lemma_word(e, " "@, total);
    let f = e + " "@ + total;
    lemma_word(f, "  "@, "SWAP"@);
    let g = f + "  "@ + "SWAP"@;
    lemma_word(g, " "@, swap);
    let h = g + " "@ + swap;
    law_words_of_both(h, "\n"@);
    law_white_space_holds_no_words("\n"@);
    assert(" MEM "@ + padded(percent, 5) + "% "@ =~= b + " "@);
    assert(d + " / "@ =~= e + " "@);
    assert(f + "  SWAP "@ =~= g + " "@);
    assert(memory_line_of(snapshot, gauges) =~= h + "\n"@);
    assert(text_words(h) + Seq::<Seq<char>>::empty() =~= text_words(h));
}

/// The words of a time are its days, its hours and its minutes, each followed by its
/// letter: together they are the whole minutes that passed.
pub proof fn law_a_duration_reads_back(seconds: u64) -> (r: (nat, nat, nat))
    ensures
        text_words(duration_of(seconds)) == seq![
            decimal(r.0) + "d"@,
            two_digits(r.1) + "h"@,
            two_digits(r.2) + "m"@,
        ],
        r.1 < 24,
        r.2 < 60,
        (r.0 * 24 + r.1) * 60 + r.2 == seconds / 60,
        wordlike(decimal(r.0) + "d"@),
        wordlike(two_digits(r.1) + "h"@),
        wordlike(two_digits(r.2) + "m"@),
        duration_of(seconds) == decimal(r.0) + "d"@ + " "@ + (two_digits(r.1) + "h"@) + " "@ + (
        two_digits(r.2) + "m"@),
{
    let none = Seq::<char>::empty();
    let days = (seconds / 86_400) as nat;
    let hours = (seconds % 86_400 / 3_600) as nat;
    let minutes = (seconds % 3_600 / 60) as nat;
    law_a_duration_is_its_minutes(seconds);
    lemma_blanks();
    reveal_strlit("d ");
    reveal_strlit("h ");
    reveal_strlit("d");
    reveal_strlit("h");
    reveal_strlit("m");
    lemma_decimal_is_a_word(days);
    lemma_two_digits_are_a_word(hours);
    lemma_two_digits_are_a_word(minutes);
    lemma_two_wordlike(decimal(days), "d"@);
    lemma_two_wordlike(two_digits(hours), "h"@);
    lemma_two_wordlike(two_digits(minutes), "m"@);
    law_white_space_holds_no_words(none);
    law_a_word_reads_back(none, decimal(days) + "d"@, none);
    let a = decimal(days) + "d"@;
    assert(none + a + none =~= a);
    lemma_word(a, " "@, two_digits(hours) + "h"@);
    let b = a + " "@ + (two_digits(hours) + "h"@);
    lemma_word(b, " "@, two_digits(minutes) + "m"@);
    let c = b + " "@ + (two_digits(minutes) + "m"@);
    assert(decimal(days) + "d "@ =~= a + " "@);
    assert(a + " "@ + two_digits(hours) + "h "@ =~= b + " "@);
    assert(duration_of(seconds) =~= c);
    assert(text_words(c) =~= seq![
        decimal(days) + "d"@,
        two_digits(hours) + "h"@,
        two_digits(minutes) + "m"@,
    ]);
    (days, hours, minutes)
}

proof fn lemma_two_digits_are_a_word(n: nat)
    ensures
        wordlike(two_digits(n)),
{
    lemma_decimal_is_a_word(n);
    if n < 10 {
        lemma_two_wordlike(seq!['0'], decimal(n));
    }
}

/// The line of the CPU tells, word for word, its share, the three load averages and the
/// time that the host has been up.
#[verifier::spinoff_prover]
#[verifier::rlimit(60)]
pub proof fn law_the_words_of_the_cpu_line(snapshot: Snapshot, gauges: Gauges)
    requires
        wordlike(snapshot.cpu_percent.tenths@),
        wordlike(snapshot.load@[0].hundredths@),
        wordlike(snapshot.load@[1].hundredths@),
        wordlike(snapshot.load@[2].hundredths@),
        gauges.cpu_filled <= 24,
    ensures
        ({
            let words = text_words(cpu_line_of(snapshot, gauges));
            &&& words.len() == 11
            &&& words[0] == "CPU"@
            &&& words[1] == snapshot.cpu_percent.tenths@ + "%"@
            &&& words[2] == bar_of(gauges.cpu_filled as nat, 24)
            &&& words[3] == "load"@
            &&& words[4] == snapshot.load@[0].hundredths@
            &&& words[5] == snapshot.load@[1].hundredths@
            &&& words[6] == snapshot.load@[2].hundredths@
            &&& words[7] == "uptime"@
            &&& words.skip(8) == text_words(duration_of(gauges.uptime_seconds))
        }),
{
    let none = Seq::<char>::empty();
    let percent = snapshot.cpu_percent.tenths@;
    let bar = bar_of(gauges.cpu_filled as nat, 24);
    let x = snapshot.load@[0].hundredths@;
    let y = snapshot.load@[1].hundredths@;
    let z = snapshot.load@[2].hundredths@;
    let time = duration_of(gauges.uptime_seconds);
    lemma_blanks();
    law_a_bar_is_filled_from_the_left(gauges.cpu_filled as nat, 24);
    law_white_space_holds_no_words(none);
    reveal_strlit(" CPU ");
    reveal_strlit("CPU");
    reveal_strlit("% ");
    reveal_strlit("%");
    reveal_strlit("  load ");
    reveal_strlit("load");
    reveal_strlit("  uptime ");
    reveal_strlit("uptime");
    lemma_word(none, " "@, "CPU"@);
    let a = none + " "@ + "CPU"@;
    lemma_two_wordlike(percent, "%"@);
    lemma_padding(percent, 5);
    let pad = " "@ + padding(percent, 5);
    lemma_word(a, pad, percent + "%"@);
    let b = a + pad + (percent + "%"@);
    lemma_word(b, " "@, bar);
    let c = b + " "@ + bar;
    lemma_word(c, "  "@, "load"@);
    let d = c + "  "@ + "load"@;
    lemma_word(d, " "@, x);
    let e = d + " "@ + x;
    lemma_word(e, " "@, y);
    let f = e + " "@ + y;
    lemma_word(f, " "@, z);
    let g = f + " "@ + z;
    lemma_word(g, "  "@, "uptime"@);
    let h = g + "  "@ + "uptime"@;
    let parts = law_a_duration_reads_back(gauges.uptime_seconds);
    let p = decimal(parts.0) + "d"@;
    let q = two_digits(parts.1) + "h"@;
    let r = two_digits(parts.2) + "m"@;
    lemma_word(h, " "@, p);
    let i = h + " "@ + p;
    lemma_word(i, " "@, q);
    let j = i + " "@ + q;
    lemma_word(j, " "@, r);
    let k = j + " "@ + r;
    law_words_of_both(k, "\n"@);
    law_white_space_holds_no_words("\n"@);
    assert(" CPU "@ + padded(percent, 5) + "% "@ =~= b + " "@);
    assert(c + "  load "@ =~= d + " "@);
    assert(g + "  uptime "@ =~= h + " "@);
    assert(h + " "@ + time =~= k);
    assert(cpu_line_of(snapshot, gauges) =~= k + "\n"@);
    let words = text_words(cpu_line_of(snapshot, gauges));
    assert(words =~= text_words(k));
    assert(words.skip(8) =~= seq![p, q, r]);
}

/// The line of the activity tells, word for word, what was received and sent, read and
/// written, how many processes there are, and how many of them run.
#[verifier::spinoff_prover]
#[verifier::rlimit(60)]
pub proof fn law_the_words_of_the_activity_line(snapshot: Snapshot)
    ensures
        ({
            let words = text_words(activity_line_of(snapshot));
            &&& words.len() == 14
            &&& words[0] == "NET"@
            &&& words[1] == "rx"@
            &&& words[2] == bytes_of(snapshot.network_receive_bytes)
            &&& words[3] == "tx"@
            &&& words[4] == bytes_of(snapshot.network_transmit_bytes)
            &&& words[5] == "DISK"@
            &&& words[6] == "read"@
            &&& words[7] == bytes_of(snapshot.disk_read_bytes)
            &&& words[8] == "write"@
            &&& words[9] == bytes_of(snapshot.disk_write_bytes)
            &&& words[10] == "TASKS"@
            &&& words[11] == decimal(snapshot.processes_total as nat)
            &&& words[12] == "("@ + decimal(snapshot.processes_running as nat)
            &&& words[13] == "running)"@
        }),
{
    let none = Seq::<char>::empty();
    let wide = "    "@;
    let rx = bytes_of(snapshot.network_receive_bytes);
    let tx = bytes_of(snapshot.network_transmit_bytes);
    let read = bytes_of(snapshot.disk_read_bytes);
    let written = bytes_of(snapshot.disk_write_bytes);
    let total = decimal(snapshot.processes_total as nat);
    let running = decimal(snapshot.processes_running as nat);
    lemma_blanks();
    lemma_amount_is_a_word(snapshot.network_receive_bytes);
    lemma_amount_is_a_word(snapshot.network_transmit_bytes);
    lemma_amount_is_a_word(snapshot.disk_read_bytes);
    lemma_amount_is_a_word(snapshot.disk_write_bytes);
    lemma_decimal_is_a_word(snapshot.processes_total as nat);
    lemma_decimal_is_a_word(snapshot.processes_running as nat);
    law_white_space_holds_no_words(none);
    reveal_strlit("    ");
    reveal_strlit(" NET rx ");
    reveal_strlit("NET");
    reveal_strlit("rx");
    reveal_strlit("  tx ");
    reveal_strlit("tx");
    reveal_strlit("    DISK read ");
    reveal_strlit("DISK");
    reveal_strlit("read");
    reveal_strlit("  write ");
    reveal_strlit("write");
    reveal_strlit("    TASKS ");
    reveal_strlit("TASKS");
    reveal_strlit(" (");
    reveal_strlit("(");
    reveal_strlit(" running)\n");
    reveal_strlit("running)");
    lemma_word(none, " "@, "NET"@);
    let a = none + " "@ + "NET"@;
    lemma_word(a, " "@, "rx"@);
    let b = a + " "@ + "rx"@;
    lemma_word(b, " "@, rx);
    let c = b + " "@ + rx;
    lemma_word(c, "  "@, "tx"@);
    let d = c + "  "@ + "tx"@;
    lemma_word(d, " "@, tx);
    let e = d + " "@ + tx;
    lemma_word(e, wide, "DISK"@);
    let f = e + wide + "DISK"@;
    lemma_word(f, " "@, "read"@);
    let g = f + " "@ + "read"@;
    lemma_word(g, " "@, read);
    let h = g + " "@ + read;
    lemma_word(h, "  "@, "write"@);
    let i = h + "  "@ + "write"@;
    lemma_word(i, " "@, written);
    let j = i + " "@ + written;
    lemma_word(j, wide, "TASKS"@);
    let k = j + wide + "TASKS"@;
    lemma_word(k, " "@, total);
    let l = k + " "@ + total;
    lemma_two_wordlike("("@, running);
    lemma_word(l, " "@, "("@ + running);
    let m = l + " "@ + ("("@ + running);
    lemma_word(m, " "@, "running)"@);
    let n = m + " "@ + "running)"@;
    law_words_of_both(n, "\n"@);
    law_white_space_holds_no_words("\n"@);
    assert(" NET rx "@ =~= b + " "@);
    assert(c + "  tx "@ =~= d + " "@);
    assert(e + "    DISK read "@ =~= g + " "@);
    assert(h + "  write "@ =~= i + " "@);
    assert(j + "    TASKS "@ =~= k + " "@);
    assert(l + " ("@ + running =~= m);
    assert(m + " running)\n"@ =~= n + "\n"@);
    assert(activity_line_of(snapshot) =~= n + "\n"@);
    assert(text_words(activity_line_of(snapshot)) =~= text_words(n));
}

/// The line of a card tells, word for word, its driver, how busy it is, and what is used of
/// its memory and all of it.
#[verifier::spinoff_prover]
#[verifier::rlimit(60)]
pub proof fn law_the_words_of_a_card(gpu: GpuView)
    requires
        wordlike(gpu.driver),
        wordlike(gpu.busy_percent.units),
    ensures
        text_words(card_of(gpu)) == seq![
            "GPU"@,
            gpu.driver,
            gpu.busy_percent.units + "%"@,
            "VRAM"@,
            bytes_of(gpu.vram_used_bytes),
            "/"@,
            bytes_of(gpu.vram_total_bytes),
        ],
{
    let none = Seq::<char>::empty();
    let percent = gpu.busy_percent.units;
    let used = bytes_of(gpu.vram_used_bytes);
    let total = bytes_of(gpu.vram_total_bytes);
    lemma_blanks();
    lemma_amount_is_a_word(gpu.vram_used_bytes);
    lemma_amount_is_a_word(gpu.vram_total_bytes);
    reveal_strlit("GPU ");
    reveal_strlit("GPU");
    reveal_strlit("%");
    reveal_strlit("%  VRAM ");
    reveal_strlit("VRAM");
    reveal_strlit(" / ");
    reveal_strlit("/");
    law_a_word_reads_back(none, "GPU"@, none);
    law_white_space_holds_no_words(none);
    let a = "GPU"@;
    assert(none + a + none =~= a);
    lemma_word(a, " "@, gpu.driver);
    let b = a + " "@ + gpu.driver;
    lemma_two_wordlike(percent, "%"@);
    lemma_padding(percent, 3);
    let pad = " "@ + padding(percent, 3);
    lemma_word(b, pad, percent + "%"@);
    let c = b + pad + (percent + "%"@);
    lemma_word(c, "  "@, "VRAM"@);
    let d = c + "  "@ + "VRAM"@;
    lemma_word(d, " "@, used);
    let e = d + " "@ + used;
    lemma_word(e, " "@, "/"@);
    let f = e + " "@ + "/"@;
    lemma_word(f, " "@, total);
    let g = f + " "@ + total;
    assert("GPU "@ =~= a + " "@);
    assert(b + " "@ + padded(percent, 3) + "%  VRAM "@ =~= d + " "@);
    assert(e + " / "@ =~= f + " "@);
    assert(card_of(gpu) =~= g);
    assert(text_words(g) =~= seq![a, gpu.driver, percent + "%"@, "VRAM"@, used, "/"@, total]);
}

/// The cards stand beside each other, one after the other, and where there is none the
/// line says so.
pub proof fn law_cards_stand_beside_each_other(gpus: Seq<GpuView>, gpu: GpuView)
    ensures
        gpu_summary_of(Seq::empty()) == "GPU none detected"@,
        gpu_summary_of(seq![gpu]) == card_of(gpu),
        gpus.len() > 0 ==> gpu_summary_of(gpus.push(gpu)) == gpu_summary_of(gpus) + "    "@
            + card_of(gpu),
{
    assert(gpus.push(gpu).drop_last() =~= gpus);
}

proof fn lemma_row_ends(process: ProcessView, width: nat)
    ensures
        row_of(process, width).len() > 0,
        row_of(process, width).last() == '\n',
{
    lemma_blanks();
}

/// Below the heading stands a row for each process that is shown, in their order: the rows
/// of one process more are those before and its row.
pub proof fn law_rows_stand_in_order(
    processes: Seq<ProcessView>,
    order: Seq<int>,
    width: nat,
    count: nat,
    i: int,
)
    requires
        0 <= i < count,
        forall|k: int| 0 <= k < count ==> one_line(
            row_of(processes[#[trigger] order[k]], width).drop_last(),
        ),
    ensures
        complete(rows_of(processes, order, width, count)),
        text_lines(rows_of(processes, order, width, count)).len() == count,
        text_lines(rows_of(processes, order, width, count))[i].push('\n') == row_of(
            processes[order[i]],
            width,
        ),
    decreases count,
{
    let fewer = (count - 1) as nat;
    let before = rows_of(processes, order, width, fewer);
    let process = processes[order[count - 1]];
    let line = row_of(process, width).drop_last();
    lemma_row_ends(process, width);
    assert(line.push('\n') =~= row_of(process, width));
    assert(one_line(line));
    if count == 1 {
        assert(before =~= Seq::<char>::empty());
        assert(text_lines(before).len() == 0);
    } else {
        law_rows_stand_in_order(processes, order, width, fewer, if i < fewer {
            i
        } else {
            0
        });
    }
    law_one_line_more(before, line);
}

/// The size of a terminal is read as `stty` tells it: first the rows and then the columns.
/// Where it tells nothing there are 120 columns and 30 rows.
pub proof fn law_the_terminal_size_reads_back(rows: u32, columns: u32, end: Seq<char>)
    requires
        blank(end),
    ensures
        size_of(Some(decimal(rows as nat).push(' ') + (decimal(columns as nat) + end))) == (
            columns as usize,
            rows as usize,
        ),
        size_of(None) == (120usize, 30usize),
        size_of(Some(end)) == (120usize, 30usize),
{
    let none = Seq::<char>::empty();
    let a = decimal(rows as nat);
    let b = decimal(columns as nat);
    let more = seq![' '] + b + end;
    lemma_decimal_is_a_word(rows as nat);
    lemma_decimal_is_a_word(columns as nat);
    law_decimal_reads_back(rows as nat);
    law_decimal_reads_back(columns as nat);
    law_a_word_reads_back(seq![' '], b, end);
    law_a_word_reads_back(none, a, more);
    law_white_space_holds_no_words(end);
    assert(none + a + more =~= a.push(' ') + (b + end));
}

/// A key chooses what its letter in the line at the bottom stands for, whatever was chosen
/// before; `q` and the interrupt key quit, and any other key changes nothing.
pub proof fn law_keys_choose_by_their_letters(sort: SortBy, key: u8)
    ensures
        after_key(sort, 'c' as u8) == Some(SortBy::Cpu),
        after_key(sort, 'm' as u8) == Some(SortBy::Memory),
        after_key(sort, 'r' as u8) == Some(SortBy::Read),
        after_key(sort, 'w' as u8) == Some(SortBy::Write),
        after_key(sort, 'n' as u8) == Some(SortBy::Network),
        after_key(sort, 'g' as u8) == Some(SortBy::Gpu),
        after_key(sort, 'p' as u8) == Some(SortBy::Pid),
        after_key(sort, 'q' as u8) is None,
        after_key(sort, 3) is None,
        !seq![
            'q' as u8,
            3u8,
            'c' as u8,
            'm' as u8,
            'r' as u8,
            'w' as u8,
            'n' as u8,
            'g' as u8,
            'p' as u8,
        ].contains(key) ==> after_key(sort, key) == Some(sort),
{
    let known = seq![
        'q' as u8,
        3u8,
        'c' as u8,
        'm' as u8,
        'r' as u8,
        'w' as u8,
        'n' as u8,
        'g' as u8,
        'p' as u8,
    ];
    if !known.contains(key) {
        assert(known[0] != key && known[1] != key && known[2] != key && known[3] != key);
        assert(known[4] != key && known[5] != key && known[6] != key && known[7] != key);
        assert(known[8] != key);
    }
}

/// The title tells the name of the host and the address that the exporter listens on.
pub proof fn law_the_title_tells_host_and_address(hostname: Seq<char>, listen: Seq<char>)
    ensures
        ends(title_of(hostname, listen), hostname + "  :"@ + listen + "\x1b[0m\n"@),
{
    let title = title_of(hostname, listen);
    let end = hostname + "  :"@ + listen + "\x1b[0m\n"@;
    assert(title.skip(title.len() - end.len()) =~= end);
}

/// What is shown begins with the title, the lines of the CPU, the memory, the activity and
/// the cards, the heading, and the rows of the processes in the order that was chosen; it
/// ends in the line at the bottom, which stands on the last row of the terminal or below
/// what did not fit.
#[verifier::spinoff_prover]
#[verifier::rlimit(60)]
pub proof fn law_a_frame_from_top_to_bottom(
    snapshot: Snapshot,
    listen: Seq<char>,
    sort: SortBy,
    width: nat,
    height: nat,
    gauges: Gauges,
    order: Seq<int>,
)
    requires
        is_ranking(keys_of(views(snapshot.processes@), sort), order),
    ensures
        ({
            let processes = views(snapshot.processes@);
            let frame = frame_of(snapshot, listen, sort, width, height, gauges);
            let top = title_of(snapshot.hostname@, listen) + cpu_line_of(snapshot, gauges)
                + memory_line_of(snapshot, gauges) + activity_line_of(snapshot) + " "@
                + gpu_summary_of(views(snapshot.gpus@)) + "\n\n"@ + heading();
            let count = shown(processes.len(), height);
            let bottom =
                "\x1b[7m q quit │ sort: c cpu  m memory  r read  w write  n net  g gpu  p pid \x1b[0m"@;
            let body = top + rows_of(processes, order, width, count);
            &&& begins(frame, body)
            &&& ends(frame, bottom)
            &&& height > 0 && line_feeds(body) < height ==> line_feeds(
                frame.take(frame.len() - bottom.len()),
            ) == height - 1
        }),
{
    let processes = views(snapshot.processes@);
    let keys = keys_of(processes, sort);
    let frame = frame_of(snapshot, listen, sort, width, height, gauges);
    lemma_ranking_exists(keys);
    lemma_ranking_unique(keys, ranking(keys), order);
    let count = shown(processes.len(), height);
    let body = head_of(snapshot, listen, gauges) + rows_of(processes, order, width, count);
    let above = if height == 0 {
        0
    } else {
        (height - 1) as nat
    };
    let bottom =
        "\x1b[7m q quit │ sort: c cpu  m memory  r read  w write  n net  g gpu  p pid \x1b[0m"@;
    law_a_frame_fills_the_terminal(body, above);
    let filled = filled_up(body, above);
    assert(frame == filled + bottom);
    assert(filled.take(body.len() as int) =~= body);
    assert(frame.take(body.len() as int) =~= body);
    assert(frame.skip(frame.len() - bottom.len()) =~= bottom);
    assert(frame.take(frame.len() - bottom.len()) =~= filled);
}

/// An amount of more than 53 binary digits is written in TiB, with the nearest number of
/// tenths of what is left of it when it is rounded.
pub proof fn law_a_large_amount_is_in_tebibytes(value: u64) -> (tenths: nat)
    requires
        value >= 0x20_0000_0000_0000,
    ensures
        bytes_of(value) == decimal(tenths / 10) + "."@ + decimal(tenths % 10) + "TiB"@,
        2 * (tenths * 1099511627776 - 10 * rounded(value as nat)) <= 1099511627776,
        2 * (10 * rounded(value as nat) - tenths * 1099511627776) <= 1099511627776,
{
    law_amounts_are_rounded_little(value as nat);
    let amount = rounded(value as nat);
    assert(amount >= 0x100_0000_0000);
    law_nearest_is_half_a_unit_off(amount * 10, 0x100_0000_0000);
    nearest(amount * 10, 0x100_0000_0000)
}

/// A row ends in the name of the process, of which as many characters are shown as the
/// terminal leaves behind 84 columns, and eight at least.
pub proof fn law_a_row_ends_in_the_name(process: ProcessView, width: nat)
    ensures
        ({
            let room = if width < 92 {
                8
            } else {
                width - 84
            };
            let row = row_of(process, width);
            &&& process.name.len() <= room ==> ends(row, "  "@ + process.name + "\n"@)
            &&& process.name.len() > room ==> ends(row, "  "@ + process.name.take(room) + "\n"@)
        }),
{
    let row = row_of(process, width);
    let end = "  "@ + shortened(process.name, name_width(width)) + "\n"@;
    assert(row.skip(row.len() - end.len()) =~= end);
}

} // verus!
