use vstd::prelude::*;

use crate::block::BlockType;
use crate::item::{ItemType, ToolType};

verus! {

/// One ingredient of a recipe.
#[derive(Clone, Copy, Debug, PartialEq, Eq, Structural)]
pub enum RecipeIngredient {
    Block(BlockType),
    Tool(ToolType),
    /// Any item at all.
    Any,
}

/// How a recipe's ingredients must lie in the 3 x 3 grid.
#[derive(Clone, Debug)]
pub enum RecipePattern {
    /// Rows of cells that must appear together, anywhere in the grid, with every other cell
    /// empty.
    Shaped(Vec<Vec<Option<RecipeIngredient>>>),
    /// Ingredients in any cells, and nothing else.
    Shapeless(Vec<RecipeIngredient>),
}

#[derive(Clone, Debug)]
pub struct Recipe {
    pub pattern: RecipePattern,
    pub output: ItemType,
    pub output_count: usize,
}

/// The recipes a crafting grid is checked against, in order.
pub struct CraftingSystem {
    recipes: Vec<Recipe>,
}

pub open spec fn ingredient_matches(ing: RecipeIngredient, item: ItemType) -> bool {
    match (ing, item) {
        (RecipeIngredient::Block(b), ItemType::Block(c)) => b == c,
        (RecipeIngredient::Tool(t), ItemType::Tool(u, _)) => t == u,
        (RecipeIngredient::Any, _) => true,
        _ => false,
    }
}

/// The rows of a shaped pattern.
pub open spec fn shape_rows(shape: Seq<Vec<Option<RecipeIngredient>>>) -> Seq<Seq<Option<RecipeIngredient>>> {
    shape.map_values(|row: Vec<Option<RecipeIngredient>>| row@)
}

/// A shape of one to three rows of one to three cells each, all rows alike in length.
pub open spec fn shape_ok(rows: Seq<Seq<Option<RecipeIngredient>>>) -> bool {
    &&& 1 <= rows.len() <= 3
    &&& 1 <= rows[0].len() <= 3
    &&& forall|y: int| 0 <= y < rows.len() ==> (#[trigger] rows[y]).len() == rows[0].len()
}

/// Whether cell `(x, y)` of the grid fits the shape placed with its corner at `(ox, oy)`.
pub open spec fn cell_fits(rows: Seq<Seq<Option<RecipeIngredient>>>, grid: Seq<Option<ItemType>>, ox: int, oy: int, x: int, y: int) -> bool {
    let g = grid[3 * y + x];
    if oy <= y < oy + rows.len() && ox <= x < ox + rows[0].len() {
        match (rows[y - oy][x - ox], g) {
            (Some(i), Some(it)) => ingredient_matches(i, it),
            (None, None) => true,
            _ => false,
        }
    } else {
        g is None
    }
}

pub open spec fn placed_at(rows: Seq<Seq<Option<RecipeIngredient>>>, grid: Seq<Option<ItemType>>, ox: int, oy: int) -> bool {
    forall|y: int, x: int| 0 <= y < 3 && 0 <= x < 3 ==> #[trigger] cell_fits(rows, grid, ox, oy, x, y)
}

/// The shape fits the grid at some placement.
pub open spec fn shaped_matches(rows: Seq<Seq<Option<RecipeIngredient>>>, grid: Seq<Option<ItemType>>) -> bool {
    exists|ox: int, oy: int|
        0 <= oy <= 3 - rows.len() && 0 <= ox <= 3 - rows[0].len() && #[trigger] placed_at(rows, grid, ox, oy)
}

/// The items in the grid, in cell order.
pub open spec fn grid_items(grid: Seq<Option<ItemType>>, n: int) -> Seq<ItemType>
    decreases n,
{
    if n <= 0 {
        Seq::empty()
    } else {
        match grid[n - 1] {
            Some(it) => grid_items(grid, n - 1).push(it),
            None => grid_items(grid, n - 1),
        }
    }
}

/// Position of the first item in `items` that `ing` matches, if any.
pub open spec fn first_match(ing: RecipeIngredient, items: Seq<ItemType>, n: int) -> Option<int>
    decreases n,
{
    if n <= 0 {
        None
    } else {
        match first_match(ing, items, n - 1) {
            Some(k) => Some(k),
            None => if ingredient_matches(ing, items[n - 1]) { Some(n - 1) } else { None },
        }
    }
}

/// Each ingredient in turn takes the first remaining item it matches; the recipe fits when
/// every ingredient finds one and no item is left over.
pub open spec fn shapeless_matches(ings: Seq<RecipeIngredient>, items: Seq<ItemType>) -> bool
    decreases ings.len(),
{
    if ings.len() == 0 {
        items.len() == 0
    } else {
        match first_match(ings[0], items, items.len() as int) {
            Some(k) => shapeless_matches(ings.drop_first(), items.remove(k)),
            None => false,
        }
    }
}

pub open spec fn pattern_matches(p: RecipePattern, grid: Seq<Option<ItemType>>) -> bool {
    match p {
        RecipePattern::Shaped(shape) => shaped_matches(shape_rows(shape@), grid),
        RecipePattern::Shapeless(ings) => ings@.len() == grid_items(grid, 9).len() && shapeless_matches(ings@, grid_items(grid, 9)),
    }
}

/// The output of the first of the recipes that fits the grid.
pub open spec fn first_recipe(recipes: Seq<Recipe>, grid: Seq<Option<ItemType>>, n: int) -> Option<(ItemType, usize)>
    decreases n,
{
    if n <= 0 {
        None
    } else {
        match first_recipe(recipes, grid, n - 1) {
            Some(r) => Some(r),
            None => if pattern_matches(recipes[n - 1].pattern, grid) {
                Some((recipes[n - 1].output, recipes[n - 1].output_count))
            } else {
                None
            },
        }
    }
}

pub open spec fn recipe_ok(r: Recipe) -> bool {
    match r.pattern {
        RecipePattern::Shaped(shape) => shape_ok(shape_rows(shape@)),
        RecipePattern::Shapeless(_) => true,
    }
}

impl RecipeIngredient {
    pub fn matches(&self, item: &ItemType) -> (r: bool)
        ensures
            r == ingredient_matches(*self, *item),
    {
        match (self, item) {
            (RecipeIngredient::Block(b), ItemType::Block(c)) => *b == *c,
            (RecipeIngredient::Tool(t), ItemType::Tool(u, _)) => *t == *u,
            (RecipeIngredient::Any, _) => true,
            _ => false,
        }
    }
}

fn check_shaped_at_offset(shape: &Vec<Vec<Option<RecipeIngredient>>>, grid: &[Option<ItemType>; 9], ox: usize, oy: usize) -> (r: bool)
    requires
        shape_ok(shape_rows(shape@)),
        oy + shape@.len() <= 3,
        ox + shape@[0]@.len() <= 3,
    ensures
        r == placed_at(shape_rows(shape@), grid@, ox as int, oy as int),
{
    let ghost rows = shape_rows(shape@);
    let h = shape.len();
    let w = shape[0].len();
    let mut y: usize = 0;
    while y < 3
        invariant
            shape_ok(rows),
            rows == shape_rows(shape@),
            h == rows.len(),
            w == rows[0].len(),
            oy + h <= 3,
            ox + w <= 3,
            y <= 3,
            forall|yy: int, xx: int| 0 <= yy < y && 0 <= xx < 3 ==> #[trigger] cell_fits(rows, grid@, ox as int, oy as int, xx, yy),
        decreases 3 - y,
    {
        let mut x: usize = 0;
        while x < 3
            invariant
                shape_ok(rows),
                rows == shape_rows(shape@),
                h == rows.len(),
                w == rows[0].len(),
                oy + h <= 3,
                ox + w <= 3,
                y < 3,
                x <= 3,
                forall|yy: int, xx: int| 0 <= yy < y && 0 <= xx < 3 ==> #[trigger] cell_fits(rows, grid@, ox as int, oy as int, xx, yy),
                forall|xx: int| 0 <= xx < x ==> #[trigger] cell_fits(rows, grid@, ox as int, oy as int, xx, y as int),
            decreases 3 - x,
        {
            let actual = grid[3 * y + x];
            let fits: bool = if y >= oy && y < oy + h && x >= ox && x < ox + w {
                proof {
                    assert(rows[y - oy] == shape@[y - oy]@);
                    assert(rows[y - oy].len() == w);
                }
                let required = shape[y - oy][x - ox];
                match (required, actual) {
                    (Some(ingredient), Some(item)) => ingredient.matches(&item),
                    (None, None) => true,
                    _ => false,
                }
            } else {
                actual.is_none()
            };
            assert(fits == cell_fits(rows, grid@, ox as int, oy as int, x as int, y as int));
            if !fits {
                return false;
            }
            x = x + 1;
        }
        y = y + 1;
    }
    true
}

fn matches_shaped(shape: &Vec<Vec<Option<RecipeIngredient>>>, grid: &[Option<ItemType>; 9]) -> (r: bool)
    requires
        shape_ok(shape_rows(shape@)),
    ensures
        r == shaped_matches(shape_rows(shape@), grid@),
{
    let ghost rows = shape_rows(shape@);
    let h = shape.len();
    let w = shape[0].len();
    assert(w == rows[0].len());
    let mut oy: usize = 0;
    while oy <= 3 - h
        invariant
            shape_ok(rows),
            rows == shape_rows(shape@),
            h == rows.len(),
            w == rows[0].len(),
            oy <= 4 - h,
            forall|a: int, b: int| 0 <= b < oy && 0 <= a <= 3 - w ==> !#[trigger] placed_at(rows, grid@, a, b),
        decreases 4 - h - oy,
    {
        let mut ox: usize = 0;
        while ox <= 3 - w
            invariant
                shape_ok(rows),
                rows == shape_rows(shape@),
                h == rows.len(),
                w == rows[0].len(),
                oy <= 3 - h,
                ox <= 4 - w,
                forall|a: int, b: int| 0 <= b < oy && 0 <= a <= 3 - w ==> !#[trigger] placed_at(rows, grid@, a, b),
                forall|a: int| 0 <= a < ox ==> !#[trigger] placed_at(rows, grid@, a, oy as int),
            decreases 4 - w - ox,
        {
            if check_shaped_at_offset(shape, grid, ox, oy) {
                return true;
            }
            ox = ox + 1;
        }
        oy = oy + 1;
    }
    false
}

fn collect_items(grid: &[Option<ItemType>; 9]) -> (r: Vec<ItemType>)
    ensures
        r@ == grid_items(grid@, 9),
{
    let mut out: Vec<ItemType> = Vec::new();
    let mut i: usize = 0;
    while i < 9
        invariant
            i <= 9,
            out@ == grid_items(grid@, i as int),
        decreases 9 - i,
    {
        match grid[i] {
            Some(it) => out.push(it),
            None => {},
        }
        i = i + 1;
    }
    out
}

fn find_first(ing: &RecipeIngredient, items: &Vec<ItemType>) -> (r: Option<usize>)
    ensures
        r matches Some(k) ==> first_match(*ing, items@, items@.len() as int) == Some(k as int),
        r is None ==> first_match(*ing, items@, items@.len() as int) is None,
{
    let mut i: usize = 0;
    while i < items.len()
        invariant
            i <= items@.len(),
            first_match(*ing, items@, i as int) is None,
        decreases items@.len() - i,
    {
        if ing.matches(&items[i]) {
            proof {
                assert(first_match(*ing, items@, i as int + 1) == Some(i as int));
                lemma_first_match_stable(*ing, items@, i as int + 1, items@.len() as int);
            }
            return Some(i);
        }
        i = i + 1;
    }
    None
}

proof fn lemma_first_match_bound(ing: RecipeIngredient, items: Seq<ItemType>, n: int)
    ensures
        first_match(ing, items, n) matches Some(k) ==> 0 <= k < n,
    decreases n,
{
    if n > 0 {
        lemma_first_match_bound(ing, items, n - 1);
    }
}

proof fn lemma_first_match_stable(ing: RecipeIngredient, items: Seq<ItemType>, n: int, m: int)
    requires
        0 <= n <= m,
        first_match(ing, items, n) is Some,
    ensures
        first_match(ing, items, m) == first_match(ing, items, n),
    decreases m - n,
{
    if m > n {
        lemma_first_match_stable(ing, items, n, m - 1);
    }
}

fn matches_shapeless(ingredients: &Vec<RecipeIngredient>, grid: &[Option<ItemType>; 9]) -> (r: bool)
    ensures
        r == (ingredients@.len() == grid_items(grid@, 9).len() && shapeless_matches(ingredients@, grid_items(grid@, 9))),
{
    let mut available = collect_items(grid);
    if ingredients.len() != available.len() {
        return false;
    }
    proof {
        assert(ingredients@.subrange(0, ingredients@.len() as int) =~= ingredients@);
    }
    let mut i: usize = 0;
    while i < ingredients.len()
        invariant
            i <= ingredients@.len(),
            ingredients@.len() == grid_items(grid@, 9).len(),
            shapeless_matches(ingredients@, grid_items(grid@, 9)) == shapeless_matches(ingredients@.subrange(i as int, ingredients@.len() as int), available@),
        decreases ingredients@.len() - i,
    {
        let ghost rest = ingredients@.subrange(i as int, ingredients@.len() as int);
        proof {
            assert(rest[0] == ingredients@[i as int]);
            assert(rest.drop_first() =~= ingredients@.subrange(i as int + 1, ingredients@.len() as int));
        }
        proof {
            lemma_first_match_bound(rest[0], available@, available@.len() as int);
        }
        let ghost before = available@;
        match find_first(&ingredients[i], &available) {
            Some(k) => {
                available.remove(k);
                proof {
                    assert(available@ == before.remove(k as int));
                    assert(first_match(rest[0], before, before.len() as int) == Some(k as int));
                    assert(rest.len() > 0);
                    assert(shapeless_matches(rest, before) == shapeless_matches(rest.drop_first(), before.remove(k as int)));
                }
            },
            None => {
                return false;
            },
        }
        i = i + 1;
    }
    proof {
        assert(ingredients@.subrange(i as int, ingredients@.len() as int).len() == 0);
    }
    available.len() == 0
}

fn matches_pattern(pattern: &RecipePattern, grid: &[Option<ItemType>; 9]) -> (r: bool)
    requires
        match *pattern {
            RecipePattern::Shaped(shape) => shape_ok(shape_rows(shape@)),
            RecipePattern::Shapeless(_) => true,
        },
    ensures
        r == pattern_matches(*pattern, grid@),
{
    match pattern {
        RecipePattern::Shaped(shape) => matches_shaped(shape, grid),
        RecipePattern::Shapeless(ingredients) => matches_shapeless(ingredients, grid),
    }
}

/// A recipe as plain values: whether it is shaped, its rows (empty when shapeless), its
/// ingredients (empty when shaped), its output and its output count.
pub type RecipeView = (bool, Seq<Seq<Option<RecipeIngredient>>>, Seq<RecipeIngredient>, ItemType, usize);

pub open spec fn recipe_view(r: Recipe) -> RecipeView {
    match r.pattern {
        RecipePattern::Shaped(shape) => (true, shape_rows(shape@), Seq::empty(), r.output, r.output_count),
        RecipePattern::Shapeless(ings) => (false, Seq::empty(), ings@, r.output, r.output_count),
    }
}

/// The first `n` of three cells.
pub open spec fn first_cells(a: Option<RecipeIngredient>, b: Option<RecipeIngredient>, c: Option<RecipeIngredient>, n: int) -> Seq<Option<RecipeIngredient>> {
    if n == 1 {
        seq![a]
    } else if n == 2 {
        seq![a, b]
    } else {
        seq![a, b, c]
    }
}

/// The first `n` of three rows.
pub open spec fn first_rows(a: Seq<Option<RecipeIngredient>>, b: Seq<Option<RecipeIngredient>>, c: Seq<Option<RecipeIngredient>>, n: int) -> Seq<Seq<Option<RecipeIngredient>>> {
    if n == 1 {
        seq![a]
    } else if n == 2 {
        seq![a, b]
    } else {
        seq![a, b, c]
    }
}

/// The built-in recipes, in the order they are tried: a wood block alone gives 4 planks (as
/// wood), two stacked give 4 sticks (as wood), and pickaxes, axes and shovels take a head of
/// wood, stone or iron ore on a wooden handle.
pub open spec fn default_recipes() -> Seq<RecipeView> {
    let w = Some(RecipeIngredient::Block(BlockType::Wood));
    let s = Some(RecipeIngredient::Block(BlockType::Stone));
    let i = Some(RecipeIngredient::Block(BlockType::IronOre));
    let e: Option<RecipeIngredient> = None;
    let none = Seq::<RecipeIngredient>::empty();
    seq![
        (false, Seq::empty(), seq![RecipeIngredient::Block(BlockType::Wood)], ItemType::Block(BlockType::Wood), 4usize),
        (true, seq![seq![w], seq![w]], none, ItemType::Block(BlockType::Wood), 4usize),
        (true, seq![seq![w, w, w], seq![e, w, e], seq![e, w, e]], none, ItemType::Tool(ToolType::WoodenPickaxe, 59), 1usize),
        (true, seq![seq![s, s, s], seq![e, w, e], seq![e, w, e]], none, ItemType::Tool(ToolType::StonePickaxe, 131), 1usize),
        (true, seq![seq![i, i, i], seq![e, w, e], seq![e, w, e]], none, ItemType::Tool(ToolType::IronPickaxe, 250), 1usize),
        (true, seq![seq![w, w], seq![w, e], seq![e, w]], none, ItemType::Tool(ToolType::WoodenAxe, 59), 1usize),
        (true, seq![seq![s, s], seq![w, e], seq![w, e]], none, ItemType::Tool(ToolType::StoneAxe, 131), 1usize),
        (true, seq![seq![w], seq![w], seq![w]], none, ItemType::Tool(ToolType::WoodenShovel, 59), 1usize),
        (true, seq![seq![s], seq![w], seq![w]], none, ItemType::Tool(ToolType::StoneShovel, 131), 1usize),
    ]
}

fn cells(a: Option<RecipeIngredient>, b: Option<RecipeIngredient>, c: Option<RecipeIngredient>, n: usize) -> (r: Vec<Option<RecipeIngredient>>)
    requires
        1 <= n <= 3,
    ensures
        r@ == first_cells(a, b, c, n as int),
{
    let mut r: Vec<Option<RecipeIngredient>> = Vec::new();
    r.push(a);
    if n > 1 {
        r.push(b);
    }
    if n > 2 {
        r.push(c);
    }
    assert(r@ =~= first_cells(a, b, c, n as int));
    r
}

fn shaped(rows: Vec<Vec<Option<RecipeIngredient>>>, output: ItemType, output_count: usize) -> (r: Recipe)
    requires
        shape_ok(shape_rows(rows@)),
    ensures
        recipe_ok(r),
        recipe_view(r) == (true, shape_rows(rows@), Seq::<RecipeIngredient>::empty(), output, output_count),
{
    Recipe { pattern: RecipePattern::Shaped(rows), output, output_count }
}

fn rows_of(a: Vec<Option<RecipeIngredient>>, b: Vec<Option<RecipeIngredient>>, c: Vec<Option<RecipeIngredient>>, n: usize) -> (r: Vec<Vec<Option<RecipeIngredient>>>)
    requires
        1 <= n <= 3,
        1 <= a@.len() <= 3,
        b@.len() == a@.len(),
        c@.len() == a@.len(),
    ensures
        shape_ok(shape_rows(r@)),
        shape_rows(r@) == first_rows(a@, b@, c@, n as int),
{
    let mut r: Vec<Vec<Option<RecipeIngredient>>> = Vec::new();
    r.push(a);
    if n > 1 {
        r.push(b);
    }
    if n > 2 {
        r.push(c);
    }
    proof {
        let rows = shape_rows(r@);
        assert forall|y: int| 0 <= y < rows.len() implies (#[trigger] rows[y]).len() == rows[0].len() by {
            assert(rows[y] == r@[y]@);
            assert(rows[0] == r@[0]@);
        }
        assert(rows =~= first_rows(a@, b@, c@, n as int));
    }
    r
}

impl CraftingSystem {
    /// The built-in recipes (see `default_recipes`).
    pub fn new() -> (r: CraftingSystem)
        ensures
            r.wf(),
            r.recipe_seq().map_values(|x: Recipe| recipe_view(x)) == default_recipes(),
    {
        let wood = Some(RecipeIngredient::Block(BlockType::Wood));
        let stone = Some(RecipeIngredient::Block(BlockType::Stone));
        let iron = Some(RecipeIngredient::Block(BlockType::IronOre));
        let mut recipes: Vec<Recipe> = Vec::new();
        let mut planks: Vec<RecipeIngredient> = Vec::new();
        planks.push(RecipeIngredient::Block(BlockType::Wood));
        assert(planks@ =~= seq![RecipeIngredient::Block(BlockType::Wood)]);
        recipes.push(Recipe {
            pattern: RecipePattern::Shapeless(planks),
            output: ItemType::Block(BlockType::Wood),
            output_count: 4,
        });
        recipes.push(shaped(
            rows_of(cells(wood, None, None, 1), cells(wood, None, None, 1), cells(wood, None, None, 1), 2),
            ItemType::Block(BlockType::Wood),
            4,
        ));
        recipes.push(shaped(
            rows_of(cells(wood, wood, wood, 3), cells(None, wood, None, 3), cells(None, wood, None, 3), 3),
            ItemType::Tool(ToolType::WoodenPickaxe, ToolType::WoodenPickaxe.max_durability()),
            1,
        ));
        recipes.push(shaped(
            rows_of(cells(stone, stone, stone, 3), cells(None, wood, None, 3), cells(None, wood, None, 3), 3),
            ItemType::Tool(ToolType::StonePickaxe, ToolType::StonePickaxe.max_durability()),
            1,
        ));
        recipes.push(shaped(
            rows_of(cells(iron, iron, iron, 3), cells(None, wood, None, 3), cells(None, wood, None, 3), 3),
            ItemType::Tool(ToolType::IronPickaxe, ToolType::IronPickaxe.max_durability()),
            1,
        ));
        recipes.push(shaped(
            rows_of(cells(wood, wood, None, 2), cells(wood, None, None, 2), cells(None, wood, None, 2), 3),
            ItemType::Tool(ToolType::WoodenAxe, ToolType::WoodenAxe.max_durability()),
            1,
        ));
        recipes.push(shaped(
            rows_of(cells(stone, stone, None, 2), cells(wood, None, None, 2), cells(wood, None, None, 2), 3),
            ItemType::Tool(ToolType::StoneAxe, ToolType::StoneAxe.max_durability()),
            1,
        ));
        recipes.push(shaped(
            rows_of(cells(wood, None, None, 1), cells(wood, None, None, 1), cells(wood, None, None, 1), 3),
            ItemType::Tool(ToolType::WoodenShovel, ToolType::WoodenShovel.max_durability()),
            1,
        ));
        recipes.push(shaped(
            rows_of(cells(stone, None, None, 1), cells(wood, None, None, 1), cells(wood, None, None, 1), 3),
            ItemType::Tool(ToolType::StoneShovel, ToolType::StoneShovel.max_durability()),
            1,
        ));
        let r = CraftingSystem { recipes };
        proof {
            assert(r.recipe_seq().map_values(|x: Recipe| recipe_view(x)) =~= default_recipes());
        }
        r
    }

    pub closed spec fn recipe_seq(&self) -> Seq<Recipe> {
        self.recipes@
    }

    /// Every shaped recipe has a shape that fits the grid.
    pub open spec fn wf(&self) -> bool {
        forall|i: int| 0 <= i < self.recipe_seq().len() ==> recipe_ok(#[trigger] self.recipe_seq()[i])
    }

    /// The output of the first recipe that fits the grid (cells row by row), with its count.
    pub fn match_recipe(&self, grid: &[Option<ItemType>; 9]) -> (r: Option<(ItemType, usize)>)
        requires
            self.wf(),
        ensures
            r == first_recipe(self.recipe_seq(), grid@, self.recipe_seq().len() as int),
    {
        let mut i: usize = 0;
        while i < self.recipes.len()
            invariant
                self.wf(),
                i <= self.recipes@.len(),
                first_recipe(self.recipes@, grid@, i as int) is None,
            decreases self.recipes@.len() - i,
        {
            let recipe = &self.recipes[i];
            proof {
                assert(recipe_ok(self.recipe_seq()[i as int]));
            }
            if matches_pattern(&recipe.pattern, grid) {
                proof {
                    lemma_first_recipe_stable(self.recipes@, grid@, i as int + 1, self.recipes@.len() as int);
                }
                return Some((recipe.output, recipe.output_count));
            }
            i = i + 1;
        }
        None
    }

    pub fn recipe_count(&self) -> (r: usize)
        ensures
            r == self.recipe_seq().len(),
    {
        self.recipes.len()
    }
}

proof fn lemma_first_recipe_stable(recipes: Seq<Recipe>, grid: Seq<Option<ItemType>>, n: int, m: int)
    requires
        0 <= n <= m,
        first_recipe(recipes, grid, n) is Some,
    ensures
        first_recipe(recipes, grid, m) == first_recipe(recipes, grid, n),
    decreases m - n,
{
    if m > n {
        lemma_first_recipe_stable(recipes, grid, n, m - 1);
    }
}

} // verus!
