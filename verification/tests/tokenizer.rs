use bf_lexer::{tokenize, RawInstruction, RawInstructionStruct};

fn places(source: &str) -> Vec<(RawInstruction, u64, u64)> {
    tokenize(source).iter().map(|t| (t.raw_instruction(), t.line(), t.column())).collect()
}

#[test]
fn three_instructions_on_one_line() {
    assert_eq!(
        places("++>"),
        vec![
            (RawInstruction::Increment, 1, 1),
            (RawInstruction::Increment, 1, 2),
            (RawInstruction::RightShift, 1, 3),
        ]
    );
}

#[test]
fn two_lines() {
    assert_eq!(
        places("[-]\n.,"),
        vec![
            (RawInstruction::LoopOpen, 1, 1),
            (RawInstruction::Decrement, 1, 2),
            (RawInstruction::LoopClose, 1, 3),
            (RawInstruction::Output, 2, 1),
            (RawInstruction::Input, 2, 2),
        ]
    );
}

#[test]
fn words_around_one_instruction() {
    assert_eq!(places("hello + world"), vec![(RawInstruction::Increment, 1, 7)]);
}

#[test]
fn empty_text_has_no_tokens() {
    assert_eq!(tokenize(""), Vec::<RawInstructionStruct>::new());
}

#[test]
fn two_blank_lines_then_an_instruction() {
    assert_eq!(places("\n\n+"), vec![(RawInstruction::Increment, 3, 1)]);
}

#[test]
fn skipped_characters_take_up_columns() {
    assert_eq!(places("a+"), vec![(RawInstruction::Increment, 1, 2)]);
}

#[test]
fn tokens_are_built_with_new() {
    assert_eq!(
        tokenize("a+"),
        vec![RawInstructionStruct::new(RawInstruction::Increment, 1, 2)]
    );
}

#[test]
fn text_without_instructions_has_no_tokens() {
    assert_eq!(places("a comment\nand another one\n"), vec![]);
}

#[test]
fn a_line_of_commentary_still_counts_as_a_line() {
    assert_eq!(
        places("+\nnothing here\n-"),
        vec![(RawInstruction::Increment, 1, 1), (RawInstruction::Decrement, 3, 1)]
    );
}

#[test]
fn a_line_break_adds_one_line_and_resets_the_column() {
    let first = "ab+c";
    let second = ">xy<";
    let alone = places(second);
    let joined = places(&format!("{}\n{}", first, second));
    let from_first = places(first).len();
    assert_eq!(&joined[..from_first], &places(first)[..]);
    assert_eq!(joined.len(), from_first + alone.len());
    for (moved, old) in joined[from_first..].iter().zip(alone.iter()) {
        assert_eq!(moved.0, old.0);
        assert_eq!(moved.1, old.1 + 1);
        assert_eq!(moved.2, old.2);
    }
    assert_eq!(joined[from_first], (RawInstruction::RightShift, 2, 1));
}

#[test]
fn text_put_behind_an_unfinished_line_moves_right() {
    assert_eq!(
        places("..\nabc+\n-"),
        vec![
            (RawInstruction::Output, 1, 1),
            (RawInstruction::Output, 1, 2),
            (RawInstruction::Increment, 2, 4),
            (RawInstruction::Decrement, 3, 1),
        ]
    );
    assert_eq!(
        places(&format!("{}{}", "..\nabc", "+\n-")),
        places("..\nabc+\n-")
    );
}

#[test]
fn trailing_blank_space_changes_nothing() {
    let plain = places("+[\n-]");
    assert_eq!(places("+[\n-]\n"), plain);
    assert_eq!(places("+[\n-]\n\n\n"), plain);
    assert_eq!(places("+[\n-]  \t \n "), plain);
    assert_eq!(places("+[\n-] trailing words"), plain);
}

#[test]
fn leading_blank_space_takes_up_columns_and_lines() {
    assert_eq!(places("   +"), vec![(RawInstruction::Increment, 1, 4)]);
    assert_eq!(places("\t+"), vec![(RawInstruction::Increment, 1, 2)]);
    assert_eq!(places("\n +"), vec![(RawInstruction::Increment, 2, 2)]);
}

#[test]
fn unbalanced_brackets_are_tokens_like_any_other() {
    assert_eq!(
        places("]]["),
        vec![
            (RawInstruction::LoopClose, 1, 1),
            (RawInstruction::LoopClose, 1, 2),
            (RawInstruction::LoopOpen, 1, 3),
        ]
    );
}

#[test]
fn a_carriage_return_is_a_character_of_its_line() {
    assert_eq!(
        places("+\r\n\r+"),
        vec![(RawInstruction::Increment, 1, 1), (RawInstruction::Increment, 2, 2)]
    );
}

#[test]
fn a_column_is_a_character_not_a_byte() {
    assert_eq!(places("é+"), vec![(RawInstruction::Increment, 1, 2)]);
    assert_eq!(places("日本語,"), vec![(RawInstruction::Input, 1, 4)]);
    assert_eq!(places("😀\n😀😀."), vec![(RawInstruction::Output, 2, 3)]);
}

#[test]
fn all_eight_instructions_in_a_row() {
    assert_eq!(
        places("+-[]><.,"),
        vec![
            (RawInstruction::Increment, 1, 1),
            (RawInstruction::Decrement, 1, 2),
            (RawInstruction::LoopOpen, 1, 3),
            (RawInstruction::LoopClose, 1, 4),
            (RawInstruction::RightShift, 1, 5),
            (RawInstruction::LeftShift, 1, 6),
            (RawInstruction::Output, 1, 7),
            (RawInstruction::Input, 1, 8),
        ]
    );
}

#[test]
fn there_are_as_many_tokens_as_instruction_characters() {
    let sources = [
        "",
        "no instructions at all",
        "++>",
        "[-]\n.,",
        "a,b.c\n\n[x]y<z>\n+-",
        "++++++++[>++++[>++>+++>+++>+<<<<-]>+>+>->>+[<]<-]>>.>---.+++++++..+++.",
    ];
    for source in sources {
        let expected = source.chars().filter(|c| "+-<>.,[]".contains(*c)).count();
        assert_eq!(tokenize(source).len(), expected);
    }
}

#[test]
fn the_symbols_of_the_tokens_are_the_instruction_characters() {
    let source = "read , then [ loop . ] and\n> move < back + - done";
    let symbols: String = tokenize(source)
        .iter()
        .map(|t| match t.raw_instruction() {
            RawInstruction::Increment => '+',
            RawInstruction::Decrement => '-',
            RawInstruction::LoopOpen => '[',
            RawInstruction::LoopClose => ']',
            RawInstruction::RightShift => '>',
            RawInstruction::LeftShift => '<',
            RawInstruction::Output => '.',
            RawInstruction::Input => ',',
        })
        .collect();
    assert_eq!(symbols, ",[.]><+-");
}

#[test]
fn tokens_stand_in_reading_order() {
    let tokens = places("+ +\n\n[ - ]\n>\n<<< . ,\n");
    assert_eq!(tokens.len(), 11);
    for pair in tokens.windows(2) {
        let (_, line_a, column_a) = pair[0];
        let (_, line_b, column_b) = pair[1];
        assert!(line_a < line_b || (line_a == line_b && column_a < column_b));
    }
}

#[test]
fn lines_and_columns_start_at_one() {
    for (_, line, column) in places("+\n-\n\n[.]\n  ,") {
        assert!(line >= 1);
        assert!(column >= 1);
    }
    assert_eq!(places("+")[0], (RawInstruction::Increment, 1, 1));
}

#[test]
fn each_token_stands_where_its_character_stands() {
    let source = "ab+\n[x]\n\n  ,.";
    let lines: Vec<Vec<char>> = source.split('\n').map(|l| l.chars().collect()).collect();
    let expected = ['+', '[', ']', ',', '.'];
    let tokens = places(source);
    assert_eq!(tokens.len(), expected.len());
    for ((_, line, column), symbol) in tokens.iter().zip(expected.iter()) {
        assert_eq!(lines[*line as usize - 1][*column as usize - 1], *symbol);
    }
}

#[test]
fn a_longer_text_keeps_the_tokens_of_its_beginning() {
    let whole = "+[>,.<-]\n>>+\n[-]";
    let all = places(whole);
    for cut in 0..=whole.len() {
        let part = places(&whole[..cut]);
        assert_eq!(&all[..part.len()], &part[..]);
    }
}

#[test]
fn a_long_line_counts_every_column() {
    let mut source = "x".repeat(70_000);
    source.push('+');
    assert_eq!(places(&source), vec![(RawInstruction::Increment, 1, 70_001)]);
}

#[test]
fn many_lines_count_every_line() {
    let mut source = "\n".repeat(70_000);
    source.push('-');
    assert_eq!(places(&source), vec![(RawInstruction::Decrement, 70_001, 1)]);
}
