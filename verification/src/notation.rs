//! Algebraic square names: a file letter `a`..`h` followed by a rank digit
//! `1`..`8`.

use vstd::prelude::*;
use crate::types::Coord;
use crate::text::{chars_of, string_of};

verus! {

/// Why a text is not the name of a square.
#[derive(Clone, Copy, Debug, PartialEq, Eq, Structural)]
pub enum NotationError {
    /// The text does not have exactly two characters.
    Length,
    /// The first character is not a letter from `a` to `h`.
    File,
    /// The second character is not a digit from `1` to `8`.
    Rank,
}

/// The letter of a file: `a` for file 0.
pub open spec fn file_letter(file: int) -> char {
    ('a' as int + file) as char
}

/// The digit of a rank: `8` for rank 0.
pub open spec fn rank_digit(rank: int) -> char {
    ('8' as int - rank) as char
}

/// The name of the square at `c`.
pub open spec fn square_name(c: Coord) -> Seq<char> {
    seq![file_letter(c.file as int), rank_digit(c.rank as int)]
}

/// The square that `name` names, or what is wrong with `name`.
pub open spec fn square_of(name: Seq<char>) -> Result<Coord, NotationError> {
    if name.len() != 2 {
        Err(NotationError::Length)
    } else if !('a' <= name[0] <= 'h') {
        Err(NotationError::File)
    } else if !('1' <= name[1] <= '8') {
        Err(NotationError::Rank)
    } else {
        Ok(Coord { rank: ('8' as int - name[1] as int) as u8, file: (name[0] as int - 'a' as int) as u8 })
    }
}

/// The square named by two characters, as `square_of` has it.
pub fn coord_of_chars(name: &Vec<char>) -> (r: Result<Coord, NotationError>)
    ensures
        r == square_of(name@),
        r matches Ok(c) ==> c.wf(),
{
    if name.len() != 2 {
        return Err(NotationError::Length);
    }
    let f: char = name[0];
    let d: char = name[1];
    if !('a' <= f && f <= 'h') {
        return Err(NotationError::File);
    }
    if !('1' <= d && d <= '8') {
        return Err(NotationError::Rank);
    }
    Ok(Coord { rank: ('8' as u8) - (d as u8), file: (f as u8) - ('a' as u8) })
}

/// The two characters that name the square at `c`.
pub fn chars_of_coord(c: Coord) -> (name: Vec<char>)
    requires
        c.wf(),
    ensures
        name@ == square_name(c),
{
    let mut name: Vec<char> = Vec::new();
    name.push((('a' as u8) + c.file) as char);
    name.push((('8' as u8) - c.rank) as char);
    assert(name@ =~= square_name(c));
    name
}

/// Reads the name of a square.
pub fn get_board_coords(algebraic_notation: String) -> (r: Result<Coord, NotationError>)
    ensures
        r == square_of(algebraic_notation@),
        r matches Ok(c) ==> c.wf(),
{
    let name = chars_of(algebraic_notation.as_str());
    coord_of_chars(&name)
}

/// Writes the name of a square.
pub fn get_algebraic_notation(coords: Coord) -> (name: String)
    requires
        coords.wf(),
    ensures
        name@ == square_name(coords),
{
    let name = chars_of_coord(coords);
    string_of(&name)
}

/// Reading the name of a square gives that square back.
pub proof fn lemma_name_then_read(c: Coord)
    requires
        c.wf(),
    ensures
        square_of(square_name(c)) == Ok::<Coord, NotationError>(c),
{
}

/// Writing the square that a name was read as gives that name back.
pub proof fn lemma_read_then_name(name: Seq<char>)
    requires
        square_of(name) is Ok,
    ensures
        square_name(square_of(name)->Ok_0) == name,
{
    assert(square_name(square_of(name)->Ok_0) =~= name);
}

/// No two squares share a name.
pub proof fn lemma_names_differ(a: Coord, b: Coord)
    requires
        a.wf(),
        b.wf(),
        square_name(a) == square_name(b),
    ensures
        a == b,
{
    assert(square_name(a)[0] == square_name(b)[0]);
    assert(square_name(a)[1] == square_name(b)[1]);
}

} // verus!
