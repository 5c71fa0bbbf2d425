//! The document tree: blocks hold texts, texts hold tokens. All lengths are
//! in thousandths of a point.

use vstd::prelude::*;
use crate::frame::{
    bases, far_edges, frames_base, height_of, in_range, lefts, lemma_extremes, max_of, min_of,
    rights, tops, width_of, Outline,
};
use crate::sets::{
    anchor_x, anchor_y, bold_flags, font_sizes, italic_flags, set_avg_font_size, set_bold, set_font_size, set_height,
    set_horizontal_spacing, set_italic, set_mode_horizontal_spacing, set_mode_vertical_spacing,
    set_vertical_spacing, set_width,
};
use crate::style::{mean_of, unanimous};
use crate::traits::{
    all_measurable, frames_of, outline_of, outlines, Alignement, Coordinates, Shape, Spacing, Style,
};

verus! {

/// A copy of an optional string.
fn copy_text(text: &Option<String>) -> (r: Option<String>)
    ensures
        r == *text,
{
    match text {
        Some(s) => Some(s.clone()),
        None => None,
    }
}

/// A token: a piece of text with its place, size and style.
#[derive(Debug)]
pub struct Token {
    pub sid: Option<String>,
    pub id: String,
    pub font_name: Option<String>,
    pub bold: bool,
    pub italic: bool,
    pub font_color: String,
    pub font_size: u32,
    pub rotation: i32,
    pub angle: i32,
    pub x: i32,
    pub y: i32,
    pub base: i32,
    pub width: i32,
    pub height: i32,
    pub value: Option<String>,
}

impl Clone for Token {
    fn clone(&self) -> (r: Self)
        ensures
            r == *self,
    {
        Token {
            sid: copy_text(&self.sid),
            id: self.id.clone(),
            font_name: copy_text(&self.font_name),
            bold: self.bold,
            italic: self.italic,
            font_color: self.font_color.clone(),
            font_size: self.font_size,
            rotation: self.rotation,
            angle: self.angle,
            x: self.x,
            y: self.y,
            base: self.base,
            width: self.width,
            height: self.height,
            value: copy_text(&self.value),
        }
    }
}

impl Coordinates for Token {
    open spec fn placed(&self) -> bool {
        true
    }

    open spec fn x_spec(&self) -> int {
        self.x as int
    }

    open spec fn y_spec(&self) -> int {
        self.y as int
    }

    open spec fn base_spec(&self) -> int {
        self.base as int
    }

    fn x(&self) -> (r: i64) {
        self.x as i64
    }

    fn y(&self) -> (r: i64) {
        self.y as i64
    }

    fn base(&self) -> (r: i64) {
        self.base as i64
    }
}

impl Shape for Token {
    open spec fn sized(&self) -> bool {
        true
    }

    open spec fn width_spec(&self) -> int {
        self.width as int
    }

    open spec fn height_spec(&self) -> int {
        self.height as int
    }

    open spec fn rotation_spec(&self) -> Option<i64> {
        Some(self.rotation as i64)
    }

    open spec fn angle_spec(&self) -> Option<i64> {
        Some(self.angle as i64)
    }

    fn width(&self) -> (r: i64) {
        self.width as i64
    }

    fn height(&self) -> (r: i64) {
        self.height as i64
    }

    fn rotation(&self) -> (r: Option<i64>) {
        Some(self.rotation as i64)
    }

    fn angle(&self) -> (r: Option<i64>) {
        Some(self.angle as i64)
    }
}

impl Style for Token {
    open spec fn font_size_spec(&self) -> Option<u64> {
        Some(self.font_size as u64)
    }

    open spec fn avg_font_size_spec(&self) -> Option<u64> {
        Some(self.font_size as u64)
    }

    open spec fn font_color_spec(&self) -> Option<Seq<char>> {
        Some(self.font_color@)
    }

    open spec fn bold_spec(&self) -> Option<bool> {
        Some(self.bold)
    }

    open spec fn italic_spec(&self) -> Option<bool> {
        Some(self.italic)
    }

    fn font_size(&self) -> (r: Option<u64>) {
        Some(self.font_size as u64)
    }

    fn avg_font_size(&self) -> (r: Option<u64>) {
        Some(self.font_size as u64)
    }

    fn font_color(&self) -> (r: Option<String>) {
        Some(self.font_color.clone())
    }

    fn bold(&self) -> (r: Option<bool>) {
        Some(self.bold)
    }

    fn italic(&self) -> (r: Option<bool>) {
        Some(self.italic)
    }
}

impl Alignement for Token {

}

/// An ordered set of borrowed tokens.
#[derive(Debug, Clone)]
pub struct Tokens<'a> {
    pub tokens: Vec<&'a Token>,
}

/// Any set of tokens can be measured: its members can, and its smallest
/// baseline and its bounding box stay within the coordinate limit.
pub proof fn lemma_token_extent(objects: Seq<&Token>)
    ensures
        all_measurable(objects),
        in_range(min_of(bases(outlines(objects)))),
        in_range(width_of(outlines(objects))),
        in_range(height_of(outlines(objects))),
{
    let o = outlines(objects);
    if objects.len() > 0 {
        lemma_extremes(bases(o));
        lemma_extremes(lefts(o));
        lemma_extremes(rights(o));
        lemma_extremes(tops(o));
        lemma_extremes(far_edges(o));
        let a = choose|i: int| 0 <= i < o.len() && bases(o)[i] == min_of(bases(o));
        let b = choose|i: int| 0 <= i < o.len() && lefts(o)[i] == min_of(lefts(o));
        let c = choose|i: int| 0 <= i < o.len() && rights(o)[i] == max_of(rights(o));
        let d = choose|i: int| 0 <= i < o.len() && tops(o)[i] == max_of(tops(o));
        let e = choose|i: int| 0 <= i < o.len() && far_edges(o)[i] == min_of(far_edges(o));
        assert(o[a] == outline_of(objects[a]));
        assert(o[b] == outline_of(objects[b]));
        assert(o[c] == outline_of(objects[c]));
        assert(o[d] == outline_of(objects[d]));
        assert(o[e] == outline_of(objects[e]));
    }
}

impl<'a> Tokens<'a> {
    /// The tokens as a vector, in order.
    pub fn into_vec(self) -> (r: Vec<&'a Token>)
        ensures
            r == self.tokens,
    {
        self.tokens
    }

    /// The first token, if there is one.
    pub fn first_token(&self) -> (r: Option<&Token>)
        ensures
            self.tokens.len() == 0 ==> r is None,
            self.tokens.len() > 0 ==> r == Some(self.tokens[0]),
    {
        if self.tokens.len() > 0 {
            Some(self.tokens[0])
        } else {
            None
        }
    }

    /// The last token, if there is one.
    pub fn last_token(&self) -> (r: Option<&Token>)
        ensures
            self.tokens.len() == 0 ==> r is None,
            self.tokens.len() > 0 ==> r == Some(self.tokens[self.tokens.len() - 1]),
    {
        if self.tokens.len() > 0 {
            Some(self.tokens[self.tokens.len() - 1])
        } else {
            None
        }
    }

    /// The widest token, if there is one: of those with the largest width,
    /// the one that comes last.
    pub fn widest_token(&self) -> (r: Option<&Token>)
        ensures
            self.tokens.len() == 0 ==> r is None,
            self.tokens.len() > 0 ==> exists|k: int|
                0 <= k < self.tokens.len() && r == Some(#[trigger] self.tokens[k]) && (forall|j: int|
                    0 <= j < self.tokens.len() ==> (#[trigger] self.tokens[j]).width <= self.tokens[k].width)
                    && (forall|j: int|
                    k < j < self.tokens.len() ==> (#[trigger] self.tokens[j]).width < self.tokens[k].width),
    {
        if self.tokens.len() == 0 {
            return None;
        }
        let mut best: usize = 0;
        let mut i: usize = 1;
        while i < self.tokens.len()
            invariant
                1 <= i <= self.tokens.len(),
                best < i,
                forall|j: int| 0 <= j < i ==> (#[trigger] self.tokens[j]).width <= self.tokens[best as int].width,
                forall|j: int| best < j < i ==> (#[trigger] self.tokens[j]).width < self.tokens[best as int].width,
            decreases self.tokens.len() - i,
        {
            if self.tokens[i].width >= self.tokens[best].width {
                best = i;
            }
            i += 1;
        }
        Some(self.tokens[best])
    }
}

impl<'a> Coordinates for Tokens<'a> {
    open spec fn placed(&self) -> bool {
        true
    }

    /// The x of the first token, 0 for the empty set.
    open spec fn x_spec(&self) -> int {
        anchor_x(self.tokens@)
    }

    /// The y of the first token, 0 for the empty set.
    open spec fn y_spec(&self) -> int {
        anchor_y(self.tokens@)
    }

    /// The smallest baseline, 0 for the empty set.
    open spec fn base_spec(&self) -> int {
        min_of(bases(outlines(self.tokens@)))
    }

    fn x(&self) -> (r: i64) {
        if let Some(first_token) = self.first_token() {
            first_token.x as i64
        } else {
            0
        }
    }

    fn y(&self) -> (r: i64) {
        if let Some(first_token) = self.first_token() {
            first_token.y as i64
        } else {
            0
        }
    }

    fn base(&self) -> (r: i64) {
        proof {
            lemma_token_extent(self.tokens@);
        }
        let frames = frames_of(&self.tokens);
        frames_base(&frames)
    }
}

impl<'a> Shape for Tokens<'a> {
    open spec fn sized(&self) -> bool {
        true
    }

    open spec fn width_spec(&self) -> int {
        width_of(outlines(self.tokens@))
    }

    open spec fn height_spec(&self) -> int {
        height_of(outlines(self.tokens@))
    }

    open spec fn rotation_spec(&self) -> Option<i64> {
        None
    }

    open spec fn angle_spec(&self) -> Option<i64> {
        None
    }

    fn width(&self) -> (r: i64) {
        proof {
            lemma_token_extent(self.tokens@);
        }
        set_width(&self.tokens)
    }

    fn height(&self) -> (r: i64) {
        proof {
            lemma_token_extent(self.tokens@);
        }
        set_height(&self.tokens)
    }

    fn rotation(&self) -> (r: Option<i64>) {
        None
    }

    fn angle(&self) -> (r: Option<i64>) {
        None
    }
}

impl<'a> Style for Tokens<'a> {
    open spec fn font_size_spec(&self) -> Option<u64> {
        unanimous(font_sizes(self.tokens@))
    }

    open spec fn avg_font_size_spec(&self) -> Option<u64> {
        mean_of(font_sizes(self.tokens@))
    }

    open spec fn font_color_spec(&self) -> Option<Seq<char>> {
        None
    }

    open spec fn bold_spec(&self) -> Option<bool> {
        unanimous(bold_flags(self.tokens@))
    }

    open spec fn italic_spec(&self) -> Option<bool> {
        unanimous(italic_flags(self.tokens@))
    }

    fn font_size(&self) -> (r: Option<u64>) {
        set_font_size(&self.tokens)
    }

    fn avg_font_size(&self) -> (r: Option<u64>) {
        set_avg_font_size(&self.tokens)
    }

    fn font_color(&self) -> (r: Option<String>) {
        None
    }

    fn bold(&self) -> (r: Option<bool>) {
        set_bold(&self.tokens)
    }

    fn italic(&self) -> (r: Option<bool>) {
        set_italic(&self.tokens)
    }
}

impl<'a> Alignement for Tokens<'a> {

}

impl<'a> Spacing for Tokens<'a> {
    open spec fn measurable(&self) -> bool {
        true
    }

    open spec fn members(&self) -> Seq<Outline> {
        outlines(self.tokens@)
    }

    fn vertical_spacing(&self) -> (r: Vec<i64>) {
        set_vertical_spacing(&self.tokens)
    }

    fn mode_vertical_spacing(&self) -> (r: Option<i64>) {
        set_mode_vertical_spacing(&self.tokens)
    }

    fn horizontal_spacing(&self) -> (r: Vec<i64>) {
        set_horizontal_spacing(&self.tokens)
    }

    fn mode_horizontal_spacing(&self) -> (r: Option<i64>) {
        set_mode_horizontal_spacing(&self.tokens)
    }
}

/// An owned list of tokens.
#[derive(Debug)]
pub struct DeserizalizationTokens(pub Vec<Token>);

impl Clone for DeserizalizationTokens {
    fn clone(&self) -> (r: Self)
        ensures
            r.0@ == self.0@,
    {
        let mut tokens: Vec<Token> = Vec::new();
        let mut i: usize = 0;
        while i < self.0.len()
            invariant
                i <= self.0.len(),
                tokens@ == self.0@.take(i as int),
            decreases self.0.len() - i,
        {
            proof {
                assert(self.0@.take(i as int).push(self.0[i as int]) =~= self.0@.take(i + 1));
            }
            tokens.push(self.0[i].clone());
            i += 1;
        }
        proof {
            assert(self.0@.take(i as int) =~= self.0@);
        }
        DeserizalizationTokens(tokens)
    }
}

/// The text of a token, empty if it has none.
pub open spec fn token_text(token: Token) -> Seq<char> {
    match token.value {
        Some(v) => v@,
        None => Seq::empty(),
    }
}

/// The texts of the tokens in order, with one space between neighbours.
pub open spec fn joined(tokens: Seq<Token>) -> Seq<char>
    decreases tokens.len(),
{
    if tokens.len() == 0 {
        Seq::empty()
    } else if tokens.len() == 1 {
        token_text(tokens[0])
    } else {
        joined(tokens.drop_last()) + seq![' '] + token_text(tokens.last())
    }
}

/// Calls `String::push_str`, which appends the text to the end of the
/// string and leaves what was there in place.
#[verifier::external_body]
fn append(target: &mut String, text: &str)
    ensures
        final(target)@ == old(target)@ + text@,
{
    target.push_str(text)
}

impl DeserizalizationTokens {
    /// A list of the given tokens.
    pub fn new(input: Vec<Token>) -> (r: DeserizalizationTokens)
        ensures
            r.0 == input,
    {
        DeserizalizationTokens(input)
    }

    /// The tokens as a vector, in order.
    pub fn into_vec(self) -> (r: Vec<Token>)
        ensures
            r == self.0,
    {
        self.0
    }

    /// The texts of the tokens, separated by single spaces.
    pub fn to_text(&self) -> (r: String)
        ensures
            r@ == joined(self.0@),
    {
        let mut text = String::new();
        let mut i: usize = 0;
        proof {
            assert(self.0@.take(0).len() == 0);
        }
        while i < self.0.len()
            invariant
                i <= self.0.len(),
                text@ == joined(self.0@.take(i as int)),
            decreases self.0.len() - i,
        {
            proof {
                reveal_strlit(" ");
                assert(" "@ =~= seq![' ']);
                assert(self.0@.take(i + 1).drop_last() =~= self.0@.take(i as int));
                assert(self.0@.take(i + 1).last() == self.0[i as int]);
                assert(self.0@.take(i + 1)[0] == self.0[0]);
            }
            if i > 0 {
                append(&mut text, " ");
            }
            match &self.0[i].value {
                Some(v) => {
                    append(&mut text, v.as_str());
                },
                None => {
                    assert(text@ + Seq::<char>::empty() =~= text@);
                },
            }
            i += 1;
        }
        proof {
            assert(self.0@.take(i as int) =~= self.0@);
        }
        text
    }
}

/// What a text holds: its place, its size and its tokens in order.
pub struct TextView {
    pub x: i32,
    pub y: i32,
    pub id: String,
    pub width: i32,
    pub height: i32,
    pub tokens: Seq<Token>,
}

/// A text: a line-like group of tokens.
#[derive(Debug)]
pub struct Text {
    pub x: i32,
    pub y: i32,
    pub id: String,
    pub width: i32,
    pub height: i32,
    pub tokens: DeserizalizationTokens,
}

impl View for Text {
    type V = TextView;

    open spec fn view(&self) -> TextView {
        TextView {
            x: self.x,
            y: self.y,
            id: self.id,
            width: self.width,
            height: self.height,
            tokens: self.tokens.0@,
        }
    }
}

impl Clone for Text {
    fn clone(&self) -> (r: Self)
        ensures
            r@ == self@,
    {
        Text {
            x: self.x,
            y: self.y,
            id: self.id.clone(),
            width: self.width,
            height: self.height,
            tokens: self.tokens.clone(),
        }
    }
}

/// The values of a sequence of texts, in order.
pub open spec fn text_views(texts: Seq<Text>) -> Seq<TextView> {
    Seq::new(texts.len(), |i: int| texts[i]@)
}

/// What a block holds: its place, its size where known, and its texts in
/// order.
pub struct BlockView {
    pub texts: Seq<TextView>,
    pub id: String,
    pub x: i32,
    pub y: i32,
    pub height: Option<i32>,
    pub width: Option<i32>,
}

/// A block: a region of texts.
#[derive(Debug)]
pub struct Block {
    pub texts: Vec<Text>,
    pub id: String,
    pub x: i32,
    pub y: i32,
    pub height: Option<i32>,
    pub width: Option<i32>,
}

impl View for Block {
    type V = BlockView;

    open spec fn view(&self) -> BlockView {
        BlockView {
            texts: text_views(self.texts@),
            id: self.id,
            x: self.x,
            y: self.y,
            height: self.height,
            width: self.width,
        }
    }
}

impl Clone for Block {
    fn clone(&self) -> (r: Self)
        ensures
            r@ == self@,
    {
        let mut texts: Vec<Text> = Vec::new();
        let mut i: usize = 0;
        while i < self.texts.len()
            invariant
                i <= self.texts.len(),
                texts.len() == i,
                forall|j: int| 0 <= j < i ==> (#[trigger] texts[j])@ == self.texts[j]@,
            decreases self.texts.len() - i,
        {
            texts.push(self.texts[i].clone());
            i += 1;
        }
        proof {
            assert(text_views(texts@) =~= text_views(self.texts@));
        }
        Block {
            texts,
            id: self.id.clone(),
            x: self.x,
            y: self.y,
            height: self.height,
            width: self.width,
        }
    }
}

/// The values of a sequence of blocks, in order.
pub open spec fn block_views(blocks: Seq<Block>) -> Seq<BlockView> {
    Seq::new(blocks.len(), |i: int| blocks[i]@)
}

/// The values that a sequence of references points to, in order.
pub open spec fn derefs<T>(s: Seq<&T>) -> Seq<T> {
    Seq::new(s.len(), |i: int| *s[i])
}

/// The texts of a sequence of blocks: those of the first block in their
/// order, then those of the second, and so on.
pub open spec fn all_texts(blocks: Seq<Block>) -> Seq<Text>
    decreases blocks.len(),
{
    if blocks.len() == 0 {
        Seq::empty()
    } else {
        all_texts(blocks.drop_last()) + blocks.last().texts@
    }
}

/// The tokens of a sequence of texts: those of the first text in their
/// order, then those of the second, and so on.
pub open spec fn all_tokens(texts: Seq<Text>) -> Seq<Token>
    decreases texts.len(),
{
    if texts.len() == 0 {
        Seq::empty()
    } else {
        all_tokens(texts.drop_last()) + texts.last().tokens.0@
    }
}

/// A document: an ordered list of blocks.
#[derive(Debug)]
pub struct Document {
    pub blocks: Vec<Block>,
}

impl Document {
    /// A document of the given blocks.
    pub fn new(blocks: Vec<Block>) -> (r: Document)
        ensures
            r.blocks == blocks,
    {
        Document { blocks }
    }

    /// Copies of all the blocks of the document, in order.
    pub fn get_blocks(&self) -> (r: Vec<Block>)
        ensures
            block_views(r@) == block_views(self.blocks@),
    {
        let mut blocks: Vec<Block> = Vec::new();
        let mut i: usize = 0;
        while i < self.blocks.len()
            invariant
                i <= self.blocks.len(),
                blocks.len() == i,
                forall|j: int| 0 <= j < i ==> (#[trigger] blocks[j])@ == self.blocks[j]@,
            decreases self.blocks.len() - i,
        {
            blocks.push(self.blocks[i].clone());
            i += 1;
        }
        proof {
            assert(block_views(blocks@) =~= block_views(self.blocks@));
        }
        blocks
    }

    /// All the blocks of the document, in order.
    pub fn get_blocks_borrowed(&self) -> (r: Vec<&Block>)
        ensures
            derefs(r@) == self.blocks@,
    {
        let mut borrowed: Vec<&Block> = Vec::new();
        let mut i: usize = 0;
        while i < self.blocks.len()
            invariant
                i <= self.blocks.len(),
                borrowed.len() == i,
                forall|j: int| 0 <= j < i ==> *(#[trigger] borrowed[j]) == self.blocks[j],
            decreases self.blocks.len() - i,
        {
            borrowed.push(&self.blocks[i]);
            i += 1;
        }
        proof {
            assert(derefs(borrowed@) =~= self.blocks@);
        }
        borrowed
    }

    /// Copies of all the texts of the document, block after block.
    pub fn get_texts(&self) -> (r: Vec<Text>)
        ensures
            text_views(r@) == text_views(all_texts(self.blocks@)),
    {
        let borrowed = self.get_texts_borrowed();
        let mut texts: Vec<Text> = Vec::new();
        let mut i: usize = 0;
        while i < borrowed.len()
            invariant
                i <= borrowed.len(),
                texts.len() == i,
                forall|j: int| 0 <= j < i ==> (#[trigger] texts[j])@ == (*borrowed[j])@,
            decreases borrowed.len() - i,
        {
            texts.push(borrowed[i].clone());
            i += 1;
        }
        proof {
            assert(text_views(texts@) =~= text_views(derefs(borrowed@)));
        }
        texts
    }

    /// All the texts of the document, block after block.
    pub fn get_texts_borrowed(&self) -> (r: Vec<&Text>)
        ensures
            derefs(r@) == all_texts(self.blocks@),
    {
        let ghost blocks = self.blocks@;
        let mut borrowed: Vec<&Text> = Vec::new();
        let mut i: usize = 0;
        proof {
            assert(derefs(borrowed@) =~= all_texts(blocks.take(0)));
        }
        while i < self.blocks.len()
            invariant
                i <= self.blocks.len(),
                blocks == self.blocks@,
                derefs(borrowed@) == all_texts(blocks.take(i as int)),
            decreases self.blocks.len() - i,
        {
            let block = &self.blocks[i];
            let ghost done = all_texts(blocks.take(i as int));
            let mut j: usize = 0;
            proof {
                assert(derefs(borrowed@) =~= done + block.texts@.take(0));
            }
            while j < block.texts.len()
                invariant
                    j <= block.texts.len(),
                    derefs(borrowed@) == done + block.texts@.take(j as int),
                decreases block.texts.len() - j,
            {
                proof {
                    let item = block.texts[j as int];
                    assert(derefs(borrowed@.push(&block.texts[j as int])) =~= derefs(borrowed@).push(item));
                    assert((done + block.texts@.take(j as int)).push(item) =~= done + block.texts@.take(
                        j + 1,
                    ));
                }
                borrowed.push(&block.texts[j]);
                j += 1;
            }
            proof {
                assert(block.texts@.take(j as int) =~= block.texts@);
                assert(blocks.take(i + 1).drop_last() =~= blocks.take(i as int));
                assert(blocks.take(i + 1).last() == *block);
            }
            i += 1;
        }
        proof {
            assert(blocks.take(i as int) =~= blocks);
        }
        borrowed
    }

    /// Copies of all the tokens of the document, text after text.
    pub fn get_tokens(&self) -> (r: DeserizalizationTokens)
        ensures
            r.0@ == all_tokens(all_texts(self.blocks@)),
    {
        let borrowed = self.get_fsm_tokens();
        let mut tokens: Vec<Token> = Vec::new();
        let mut i: usize = 0;
        while i < borrowed.tokens.len()
            invariant
                i <= borrowed.tokens.len(),
                tokens.len() == i,
                forall|j: int| 0 <= j < i ==> #[trigger] tokens[j] == *borrowed.tokens[j],
            decreases borrowed.tokens.len() - i,
        {
            tokens.push(borrowed.tokens[i].clone());
            i += 1;
        }
        proof {
            assert(tokens@ =~= derefs(borrowed.tokens@));
        }
        DeserizalizationTokens(tokens)
    }

    /// All the tokens of the document, text after text, as a set to measure.
    pub fn get_fsm_tokens(&self) -> (r: Tokens<'_>)
        ensures
            derefs(r.tokens@) == all_tokens(all_texts(self.blocks@)),
    {
        let texts = self.get_texts_borrowed();
        let ghost owned = derefs(texts@);
        let mut borrowed: Vec<&Token> = Vec::new();
        let mut i: usize = 0;
        proof {
            assert(derefs(borrowed@) =~= all_tokens(owned.take(0)));
        }
        while i < texts.len()
            invariant
                i <= texts.len(),
                owned == derefs(texts@),
                derefs(borrowed@) == all_tokens(owned.take(i as int)),
            decreases texts.len() - i,
        {
            let text = texts[i];
            let ghost done = all_tokens(owned.take(i as int));
            let mut j: usize = 0;
            proof {
                assert(derefs(borrowed@) =~= done + text.tokens.0@.take(0));
            }
            while j < text.tokens.0.len()
                invariant
                    j <= text.tokens.0.len(),
                    derefs(borrowed@) == done + text.tokens.0@.take(j as int),
                decreases text.tokens.0.len() - j,
            {
                proof {
                    let item = text.tokens.0[j as int];
                    assert(derefs(borrowed@.push(&text.tokens.0[j as int])) =~= derefs(borrowed@).push(
                        item,
                    ));
                    assert((done + text.tokens.0@.take(j as int)).push(item) =~= done
                        + text.tokens.0@.take(j + 1));
                }
                borrowed.push(&text.tokens.0[j]);
                j += 1;
            }
            proof {
                assert(text.tokens.0@.take(j as int) =~= text.tokens.0@);
                assert(owned.take(i + 1).drop_last() =~= owned.take(i as int));
                assert(owned.take(i + 1).last() == *text);
            }
            i += 1;
        }
        proof {
            assert(owned.take(i as int) =~= owned);
        }
        Tokens { tokens: borrowed }
    }
}

} // verus!
