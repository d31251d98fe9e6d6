//! A stock list in which every item has an id of its own.

use vstd::prelude::*;
use vstd::string::*;

verus! {

/// What kind of goods an item is.
#[derive(Debug, Clone, Copy, PartialEq, Eq, Structural)]
pub enum Category {
    Electronics,
    Groceries,
    Clothing,
}

/// One line of stock.
#[derive(Debug)]
pub struct Item {
    pub id: i32,
    pub name: String,
    pub category: Category,
    pub quantity: i32,
    pub price: i32,
}

/// `Item` over character sequences.
pub struct ItemView {
    pub id: i32,
    pub name: Seq<char>,
    pub category: Category,
    pub quantity: i32,
    pub price: i32,
}

impl View for Item {
    type V = ItemView;

    open spec fn view(&self) -> ItemView {
        ItemView {
            id: self.id,
            name: self.name@,
            category: self.category,
            quantity: self.quantity,
            price: self.price,
        }
    }
}

/// Why the inventory refuses.
#[derive(Debug, Clone, Copy, PartialEq, Eq, Structural)]
pub enum InventoryError {
    /// An item with that id is already there.
    DuplicateItemId,
    /// No item has that id.
    ItemNotFound,
}

impl InventoryError {
    /// The error in words.
    pub fn message(&self) -> (m: String)
        ensures
            m@ == match *self {
                InventoryError::DuplicateItemId => "Item with the same ID already exists."@,
                InventoryError::ItemNotFound => "Item not found in the inventory."@,
            },
    {
        match self {
            InventoryError::DuplicateItemId => String::from_str("Item with the same ID already exists."),
            InventoryError::ItemNotFound => String::from_str("Item not found in the inventory."),
        }
    }
}

/// Some item of `items` has the id `id`.
pub open spec fn has_id(items: Seq<ItemView>, id: i32) -> bool {
    exists|i: int| 0 <= i < items.len() && (#[trigger] items[i]).id == id
}

/// No two items of `items` share an id.
pub open spec fn distinct_ids(items: Seq<ItemView>) -> bool {
    forall|i: int, j: int|
        0 <= i < j < items.len() ==> (#[trigger] items[i]).id != (#[trigger] items[j]).id
}

/// The items of `items` that are of `category`, in order.
pub open spec fn of_category(items: Seq<ItemView>, category: Category) -> Seq<ItemView> {
    items.filter(|it: ItemView| it.category == category)
}

/// A list of borrowed items seen as a sequence of their views.
pub open spec fn refs_view(v: Seq<&Item>) -> Seq<ItemView> {
    v.map_values(|it: &Item| it@)
}

/// The stock: items in the order they came, each id once.
#[derive(Debug)]
pub struct Inventory {
    items: Vec<Item>,
}

impl View for Inventory {
    type V = Seq<ItemView>;

    closed spec fn view(&self) -> Seq<ItemView> {
        self.items@.map_values(|it: Item| it@)
    }
}

impl Inventory {
    /// What holds of every inventory: no id occurs twice.
    pub open spec fn wf(&self) -> bool {
        distinct_ids(self@)
    }

    /// An empty inventory.
    pub fn new() -> (inv: Inventory)
        ensures
            inv@ == Seq::<ItemView>::empty(),
            inv.wf(),
    {
        let inv = Inventory { items: Vec::new() };
        assert(inv@ =~= Seq::<ItemView>::empty());
        inv
    }

    /// How many items there are.
    pub fn len(&self) -> (n: usize)
        ensures
            n == self@.len(),
    {
        self.items.len()
    }

    /// The place of the item with the id `id`, if there is one.
    fn position(&self, id: i32) -> (r: Option<usize>)
        ensures
            match r {
                Some(i) => i < self@.len() && self@[i as int].id == id,
                None => !has_id(self@, id),
            },
    {
        let n: usize = self.items.len();
        let mut i: usize = 0;
        while i < n
            invariant
                i <= n,
                n == self.items@.len(),
                forall|j: int| 0 <= j < i ==> (#[trigger] self@[j]).id != id,
            decreases n - i,
        {
            if self.items[i].id == id {
                return Some(i);
            }
            i += 1;
        }
        None
    }

    /// Adds `item` at the end, unless its id is taken: then nothing changes
    /// and the answer is `DuplicateItemId`.
    pub fn add_item(&mut self, item: Item) -> (r: Result<(), InventoryError>)
        requires
            old(self).wf(),
        ensures
            final(self).wf(),
            r is Ok <==> !has_id(old(self)@, item.id),
            r is Ok ==> final(self)@ == old(self)@.push(item@),
            r is Err ==> r->Err_0 == InventoryError::DuplicateItemId && final(self)@ == old(self)@,
    {
        match self.position(item.id) {
            Some(_) => Err(InventoryError::DuplicateItemId),
            None => {
                let ghost before = self@;
                self.items.push(item);
                assert(self@ =~= before.push(item@));
                Ok(())
            },
        }
    }

    /// The item with the id `id`, or `ItemNotFound` where there is none.
    pub fn get_item_by_id(&self, id: i32) -> (r: Result<&Item, InventoryError>)
        ensures
            r is Ok <==> has_id(self@, id),
            r is Ok ==> r->Ok_0.id == id && self@.contains(r->Ok_0@),
            r is Err ==> r->Err_0 == InventoryError::ItemNotFound,
    {
        match self.position(id) {
            Some(i) => {
                assert(self@[i as int] == self.items@[i as int]@);
                Ok(&self.items[i])
            },
            None => Err(InventoryError::ItemNotFound),
        }
    }

    /// The item at `index`, in order of arrival, if there is one.
    pub fn get(&self, index: usize) -> (r: Option<&Item>)
        ensures
            r is Some <==> index < self@.len(),
            r is Some ==> r->0@ == self@[index as int],
    {
        if index < self.items.len() {
            Some(&self.items[index])
        } else {
            None
        }
    }

    /// Splits the stock by category: electronics, groceries, clothing, each
    /// in order of arrival.
    pub fn categorize_items(&self) -> (r: (Vec<&Item>, Vec<&Item>, Vec<&Item>))
        ensures
            refs_view(r.0@) == of_category(self@, Category::Electronics),
            refs_view(r.1@) == of_category(self@, Category::Groceries),
            refs_view(r.2@) == of_category(self@, Category::Clothing),
    {
        let ghost all = self@;
        let ghost is_e = |it: ItemView| it.category == Category::Electronics;
        let ghost is_g = |it: ItemView| it.category == Category::Groceries;
        let ghost is_c = |it: ItemView| it.category == Category::Clothing;
        let mut electronics: Vec<&Item> = Vec::new();
        let mut groceries: Vec<&Item> = Vec::new();
        let mut clothing: Vec<&Item> = Vec::new();
        let n: usize = self.items.len();
        let mut i: usize = 0;
        proof {
            assert(all.take(0) =~= Seq::<ItemView>::empty());
            assert(refs_view(electronics@) =~= Seq::<ItemView>::empty());
            assert(refs_view(groceries@) =~= Seq::<ItemView>::empty());
            assert(refs_view(clothing@) =~= Seq::<ItemView>::empty());
        }
        while i < n
            invariant
                i <= n,
                n == self.items@.len(),
                all == self@,
                is_e == (|it: ItemView| it.category == Category::Electronics),
                is_g == (|it: ItemView| it.category == Category::Groceries),
                is_c == (|it: ItemView| it.category == Category::Clothing),
                refs_view(electronics@) == all.take(i as int).filter(is_e),
                refs_view(groceries@) == all.take(i as int).filter(is_g),
                refs_view(clothing@) == all.take(i as int).filter(is_c),
            decreases n - i,
        {
            let item = &self.items[i];
            proof {
                let upto = all.take(i as int);
                assert(all.take(i + 1) =~= upto.push(item@));
                upto.lemma_filter_push(item@, is_e);
                upto.lemma_filter_push(item@, is_g);
                upto.lemma_filter_push(item@, is_c);
            }
            let ghost e0 = electronics@;
            let ghost g0 = groceries@;
            let ghost c0 = clothing@;
            match item.category {
                Category::Electronics => {
                    electronics.push(item);
                    assert(refs_view(electronics@) =~= refs_view(e0).push(item@));
                },
                Category::Groceries => {
                    groceries.push(item);
                    assert(refs_view(groceries@) =~= refs_view(g0).push(item@));
                },
                Category::Clothing => {
                    clothing.push(item);
                    assert(refs_view(clothing@) =~= refs_view(c0).push(item@));
                },
            }
            i += 1;
        }
        assert(all.take(n as int) =~= all);
        (electronics, groceries, clothing)
    }
}

} // verus!
