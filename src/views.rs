//! Database views: each view's record (name, layout, per-layout settings,
//! filters, groups, sorts, field and row order), and the per-database
//! registry that holds them by view id.
use vstd::prelude::*;
use crate::keyed::{KeyedMap, keys_unique};
use crate::txn::TransactionMut;
use crate::type_option::{AnyValue, TypeOptionData, copy_type_option_data};

verus! {

/// How a view lays out its rows.
#[derive(Clone, Copy, Debug, PartialEq, Eq, Hash, Structural)]
pub enum DatabaseLayout {
    Grid,
    Board,
    Calendar,
}

/// A row's place in a view's display order.
#[derive(Clone, Debug, PartialEq, Eq)]
pub struct RowOrder {
    pub id: String,
    pub height: i32,
}

impl RowOrder {
    pub fn copy(&self) -> (r: Self)
        ensures
            r == *self,
    {
        RowOrder { id: self.id.clone(), height: self.height }
    }
}

/// A field's place in a view's display order.
#[derive(Clone, Debug, PartialEq, Eq)]
pub struct FieldOrder {
    pub id: String,
}

impl FieldOrder {
    pub fn copy(&self) -> (r: Self)
        ensures
            r == *self,
    {
        FieldOrder { id: self.id.clone() }
    }
}

/// Filter configuration, kept as a property bag.
pub type FilterMap = TypeOptionData;

/// Sort configuration, kept as a property bag.
pub type SortMap = TypeOptionData;

/// Group configuration, kept as a property bag.
pub type GroupSettingMap = TypeOptionData;

/// Settings of one layout, kept as a property bag.
pub type LayoutSetting = TypeOptionData;

/// Settings per layout; a layout may have none.
pub struct LayoutSettings {
    pub grid: Option<LayoutSetting>,
    pub board: Option<LayoutSetting>,
    pub calendar: Option<LayoutSetting>,
}

pub open spec fn opt_bag_wf(b: Option<TypeOptionData>) -> bool {
    b matches Some(x) ==> x.wf()
}

impl LayoutSettings {
    pub fn new() -> (r: Self)
        ensures
            r.wf(),
            r.model() == Map::<DatabaseLayout, Map<Seq<char>, AnyValue>>::empty(),
    {
        let r = LayoutSettings { grid: None, board: None, calendar: None };
        proof {
            assert(r.model() =~= Map::<DatabaseLayout, Map<Seq<char>, AnyValue>>::empty());
        }
        r
    }

    pub open spec fn wf(&self) -> bool {
        opt_bag_wf(self.grid) && opt_bag_wf(self.board) && opt_bag_wf(self.calendar)
    }

    pub open spec fn slot(&self, layout: DatabaseLayout) -> Option<LayoutSetting> {
        match layout {
            DatabaseLayout::Grid => self.grid,
            DatabaseLayout::Board => self.board,
            DatabaseLayout::Calendar => self.calendar,
        }
    }

    /// The settings, by layout.
    pub open spec fn model(&self) -> Map<DatabaseLayout, Map<Seq<char>, AnyValue>> {
        Map::new(
            |l: DatabaseLayout| self.slot(l) is Some,
            |l: DatabaseLayout|
                match self.slot(l) {
                    Some(b) => b@,
                    None => Map::empty(),
                },
        )
    }

    /// The settings of `layout`.
    pub fn get(&self, layout: &DatabaseLayout) -> (r: Option<LayoutSetting>)
        requires
            self.wf(),
        ensures
            r is None <==> !self.model().contains_key(*layout),
            r matches Some(b) ==> b.wf() && b@ == self.model()[*layout],
    {
        let slot = match layout {
            DatabaseLayout::Grid => &self.grid,
            DatabaseLayout::Board => &self.board,
            DatabaseLayout::Calendar => &self.calendar,
        };
        match slot {
            Some(b) => Some(copy_type_option_data(b)),
            None => None,
        }
    }

    /// Sets the settings of `layout`.
    pub fn set(&mut self, layout: DatabaseLayout, setting: LayoutSetting)
        requires
            old(self).wf(),
            setting.wf(),
        ensures
            final(self).wf(),
            final(self).model() == old(self).model().insert(layout, setting@),
    {
        match layout {
            DatabaseLayout::Grid => self.grid = Some(setting),
            DatabaseLayout::Board => self.board = Some(setting),
            DatabaseLayout::Calendar => self.calendar = Some(setting),
        }
        proof {
            assert(final(self).model() =~= old(self).model().insert(layout, setting@));
        }
    }

    pub fn copy(&self) -> (r: Self)
        requires
            self.wf(),
        ensures
            r.wf(),
            r.model() == self.model(),
    {
        let r = LayoutSettings {
            grid: self.get(&DatabaseLayout::Grid),
            board: self.get(&DatabaseLayout::Board),
            calendar: self.get(&DatabaseLayout::Calendar),
        };
        proof {
            assert(r.model() =~= self.model());
        }
        r
    }
}

/// The bags of a list, as maps.
pub open spec fn bags_seq(v: Seq<TypeOptionData>) -> Seq<Map<Seq<char>, AnyValue>> {
    v.map_values(|b: TypeOptionData| b@)
}

pub open spec fn bags_seq_wf(v: Seq<TypeOptionData>) -> bool {
    forall|i: int| 0 <= i < v.len() ==> (#[trigger] v[i]).wf()
}

/// An equal, independent list of bags.
pub fn copy_bags(v: &Vec<TypeOptionData>) -> (r: Vec<TypeOptionData>)
    requires
        bags_seq_wf(v@),
    ensures
        bags_seq_wf(r@),
        bags_seq(r@) == bags_seq(v@),
{
    let mut r: Vec<TypeOptionData> = Vec::new();
    let mut i: usize = 0;
    while i < v.len()
        invariant
            bags_seq_wf(v@),
            0 <= i <= v@.len(),
            r@.len() == i,
            bags_seq_wf(r@),
            forall|j: int| 0 <= j < i ==> (#[trigger] r@[j])@ == v@[j]@,
        decreases v@.len() - i,
    {
        let b = copy_type_option_data(&v[i]);
        r.push(b);
        i = i + 1;
    }
    proof {
        assert(bags_seq(r@) =~= bags_seq(v@));
    }
    r
}

/// An equal, independent list of row orders.
pub fn copy_row_orders(v: &Vec<RowOrder>) -> (r: Vec<RowOrder>)
    ensures
        r@ == v@,
{
    let mut r: Vec<RowOrder> = Vec::new();
    let mut i: usize = 0;
    while i < v.len()
        invariant
            0 <= i <= v@.len(),
            r@ == v@.take(i as int),
        decreases v@.len() - i,
    {
        r.push(v[i].copy());
        proof {
            assert(v@.take(i + 1) =~= v@.take(i as int).push(v@[i as int]));
        }
        i = i + 1;
    }
    proof {
        assert(v@.take(i as int) =~= v@);
    }
    r
}

/// An equal, independent list of field orders.
pub fn copy_field_orders(v: &Vec<FieldOrder>) -> (r: Vec<FieldOrder>)
    ensures
        r@ == v@,
{
    let mut r: Vec<FieldOrder> = Vec::new();
    let mut i: usize = 0;
    while i < v.len()
        invariant
            0 <= i <= v@.len(),
            r@ == v@.take(i as int),
        decreases v@.len() - i,
    {
        r.push(v[i].copy());
        proof {
            assert(v@.take(i + 1) =~= v@.take(i as int).push(v@[i as int]));
        }
        i = i + 1;
    }
    proof {
        assert(v@.take(i as int) =~= v@);
    }
    r
}

/// What a view holds, as mathematical values.
pub struct DatabaseViewModel {
    pub id: Seq<char>,
    pub database_id: Seq<char>,
    pub name: Seq<char>,
    pub layout: DatabaseLayout,
    pub layout_settings: Map<DatabaseLayout, Map<Seq<char>, AnyValue>>,
    pub filters: Seq<Map<Seq<char>, AnyValue>>,
    pub group_settings: Seq<Map<Seq<char>, AnyValue>>,
    pub sorts: Seq<Map<Seq<char>, AnyValue>>,
    pub field_orders: Seq<FieldOrder>,
    pub row_orders: Seq<RowOrder>,
}

/// One view of a database.
pub struct DatabaseView {
    pub id: String,
    pub database_id: String,
    pub name: String,
    pub layout: DatabaseLayout,
    pub layout_settings: LayoutSettings,
    pub filters: Vec<FilterMap>,
    pub group_settings: Vec<GroupSettingMap>,
    pub sorts: Vec<SortMap>,
    pub field_orders: Vec<FieldOrder>,
    pub row_orders: Vec<RowOrder>,
}

impl View for DatabaseView {
    type V = DatabaseViewModel;

    open spec fn view(&self) -> DatabaseViewModel {
        DatabaseViewModel {
            id: self.id@,
            database_id: self.database_id@,
            name: self.name@,
            layout: self.layout,
            layout_settings: self.layout_settings.model(),
            filters: bags_seq(self.filters@),
            group_settings: bags_seq(self.group_settings@),
            sorts: bags_seq(self.sorts@),
            field_orders: self.field_orders@,
            row_orders: self.row_orders@,
        }
    }
}

/// Whether every bag of a list is well formed.
pub fn bags_are_well_formed(v: &Vec<TypeOptionData>) -> (r: bool)
    ensures
        r == bags_seq_wf(v@),
{
    let mut i: usize = 0;
    while i < v.len()
        invariant
            0 <= i <= v@.len(),
            forall|j: int| 0 <= j < i ==> (#[trigger] v@[j]).wf(),
        decreases v@.len() - i,
    {
        if !v[i].is_well_formed() {
            return false;
        }
        i = i + 1;
    }
    true
}

fn opt_bag_is_well_formed(b: &Option<TypeOptionData>) -> (r: bool)
    ensures
        r == opt_bag_wf(*b),
{
    match b {
        Some(x) => x.is_well_formed(),
        None => true,
    }
}

impl DatabaseView {
    /// Whether every property bag of the view is well formed.
    pub fn is_well_formed(&self) -> (r: bool)
        ensures
            r == self.wf(),
    {
        opt_bag_is_well_formed(&self.layout_settings.grid) && opt_bag_is_well_formed(
            &self.layout_settings.board,
        ) && opt_bag_is_well_formed(&self.layout_settings.calendar) && bags_are_well_formed(
            &self.filters,
        ) && bags_are_well_formed(&self.group_settings) && bags_are_well_formed(&self.sorts)
    }

    /// Every property bag of the view is well formed.
    pub open spec fn wf(&self) -> bool {
        &&& self.layout_settings.wf()
        &&& bags_seq_wf(self.filters@)
        &&& bags_seq_wf(self.group_settings@)
        &&& bags_seq_wf(self.sorts@)
    }

    /// A view with the given identity and layout and nothing else set.
    pub fn new(id: String, database_id: String, name: String, layout: DatabaseLayout) -> (r: Self)
        ensures
            r.wf(),
            r@.id == id@,
            r@.database_id == database_id@,
            r@.name == name@,
            r@.layout == layout,
            r@.layout_settings == Map::<DatabaseLayout, Map<Seq<char>, AnyValue>>::empty(),
            r@.filters == Seq::<Map<Seq<char>, AnyValue>>::empty(),
            r@.group_settings == Seq::<Map<Seq<char>, AnyValue>>::empty(),
            r@.sorts == Seq::<Map<Seq<char>, AnyValue>>::empty(),
            r@.field_orders == Seq::<FieldOrder>::empty(),
            r@.row_orders == Seq::<RowOrder>::empty(),
    {
        let r = DatabaseView {
            id,
            database_id,
            name,
            layout,
            layout_settings: LayoutSettings::new(),
            filters: Vec::new(),
            group_settings: Vec::new(),
            sorts: Vec::new(),
            field_orders: Vec::new(),
            row_orders: Vec::new(),
        };
        proof {
            assert(r@.filters =~= Seq::<Map<Seq<char>, AnyValue>>::empty());
            assert(r@.group_settings =~= Seq::<Map<Seq<char>, AnyValue>>::empty());
            assert(r@.sorts =~= Seq::<Map<Seq<char>, AnyValue>>::empty());
            assert(r@.field_orders =~= Seq::<FieldOrder>::empty());
            assert(r@.row_orders =~= Seq::<RowOrder>::empty());
        }
        r
    }

    /// An equal, independent view.
    pub fn copy(&self) -> (r: Self)
        requires
            self.wf(),
        ensures
            r.wf(),
            r@ == self@,
    {
        DatabaseView {
            id: self.id.clone(),
            database_id: self.database_id.clone(),
            name: self.name.clone(),
            layout: self.layout,
            layout_settings: self.layout_settings.copy(),
            filters: copy_bags(&self.filters),
            group_settings: copy_bags(&self.group_settings),
            sorts: copy_bags(&self.sorts),
            field_orders: copy_field_orders(&self.field_orders),
            row_orders: copy_row_orders(&self.row_orders),
        }
    }
}

/// `m` with the view `v` stored under id `k`.
pub open spec fn with_id(v: DatabaseViewModel, k: Seq<char>) -> DatabaseViewModel {
    DatabaseViewModel { id: k, ..v }
}

/// `new_view` is what `f` made of `old_view`, stored under id `k`.
pub open spec fn updated_by<F: FnOnce(DatabaseView) -> DatabaseView>(
    f: F,
    old_view: DatabaseView,
    new_view: DatabaseViewModel,
    k: Seq<char>,
) -> bool {
    exists|nv: DatabaseView| #[trigger] f.ensures((old_view,), nv) && new_view == with_id(nv@, k)
}

/// The models of a set of views, by id.
pub open spec fn views_model(m: Map<Seq<char>, DatabaseView>) -> Map<Seq<char>, DatabaseViewModel> {
    m.map_values(|v: DatabaseView| v@)
}

/// The views of one database, by view id.
pub struct ViewMap {
    container: KeyedMap<DatabaseView>,
}

impl View for ViewMap {
    type V = Map<Seq<char>, DatabaseViewModel>;

    closed spec fn view(&self) -> Map<Seq<char>, DatabaseViewModel> {
        views_model(self.container@)
    }
}

impl ViewMap {
    /// Views are well formed and stored under their own id.
    pub closed spec fn wf(&self) -> bool {
        &&& self.container.wf()
        &&& forall|k: Seq<char>| #[trigger]
            self.container@.contains_key(k) ==> self.container@[k].wf() && self.container@[k].id@
                == k
    }

    /// The view stored under `k`, as a value.
    pub closed spec fn stored(&self, k: Seq<char>) -> DatabaseView {
        self.container@[k]
    }

    /// What the registry's invariant says of each stored view.
    pub proof fn lemma_stored(&self)
        requires
            self.wf(),
        ensures
            forall|k: Seq<char>| #[trigger]
                self@.contains_key(k) ==> self.stored(k).wf() && self.stored(k)@ == self@[k]
                    && self@[k].id == k,
    {
    }

    pub fn new() -> (r: Self)
        ensures
            r.wf(),
            r@ == Map::<Seq<char>, DatabaseViewModel>::empty(),
    {
        let r = ViewMap { container: KeyedMap::new() };
        proof {
            assert(r@ =~= Map::<Seq<char>, DatabaseViewModel>::empty());
        }
        r
    }

    /// Number of views.
    pub fn len(&self) -> (r: usize)
        requires
            self.wf(),
        ensures
            r == self@.len(),
    {
        proof {
            assert(self@.dom() =~= self.container@.dom());
        }
        self.container.len()
    }

    pub fn insert_view(&mut self, view: DatabaseView)
        requires
            old(self).wf(),
            view.wf(),
        ensures
            final(self).wf(),
            final(self)@ == old(self)@.insert(view.id@, view@),
    {
        let mut txn = TransactionMut::new();
        self.insert_view_with_txn(&mut txn, view);
    }

    /// Stores `view` under its id, replacing a view with that id.
    pub fn insert_view_with_txn(&mut self, txn: &mut TransactionMut, view: DatabaseView)
        requires
            old(self).wf(),
            view.wf(),
        ensures
            final(self).wf(),
            final(self)@ == old(self)@.insert(view.id@, view@),
            final(txn).changes() == old(txn).changes().push(view.id@),
    {
        let id = view.id.clone();
        txn.record(id.as_str());
        let ghost vm = view@;
        self.container.insert(id, view);
        proof {
            assert(self@ =~= old(self)@.insert(vm.id, vm));
        }
    }

    pub fn get_view_group_setting(&self, view_id: &str) -> (r: Vec<GroupSettingMap>)
        requires
            self.wf(),
        ensures
            bags_seq_wf(r@),
            bags_seq(r@) == (if self@.contains_key(view_id@) {
                self@[view_id@].group_settings
            } else {
                Seq::empty()
            }),
    {
        let txn = TransactionMut::new();
        self.get_view_group_setting_with_txn(&txn, view_id)
    }

    /// Group settings of a view; none when the view is absent.
    pub fn get_view_group_setting_with_txn(&self, txn: &TransactionMut, view_id: &str) -> (r: Vec<
        GroupSettingMap,
    >)
        requires
            self.wf(),
        ensures
            bags_seq_wf(r@),
            bags_seq(r@) == (if self@.contains_key(view_id@) {
                self@[view_id@].group_settings
            } else {
                Seq::empty()
            }),
    {
        match self.container.get(view_id) {
            Some(v) => copy_bags(&v.group_settings),
            None => {
                let r: Vec<GroupSettingMap> = Vec::new();
                proof {
                    assert(bags_seq(r@) =~= Seq::empty());
                }
                r
            },
        }
    }

    pub fn get_view_sorts(&self, view_id: &str) -> (r: Vec<SortMap>)
        requires
            self.wf(),
        ensures
            bags_seq_wf(r@),
            bags_seq(r@) == (if self@.contains_key(view_id@) {
                self@[view_id@].sorts
            } else {
                Seq::empty()
            }),
    {
        let txn = TransactionMut::new();
        self.get_view_sorts_with_txn(&txn, view_id)
    }

    /// Sorts of a view; none when the view is absent.
    pub fn get_view_sorts_with_txn(&self, txn: &TransactionMut, view_id: &str) -> (r: Vec<SortMap>)
        requires
            self.wf(),
        ensures
            bags_seq_wf(r@),
            bags_seq(r@) == (if self@.contains_key(view_id@) {
                self@[view_id@].sorts
            } else {
                Seq::empty()
            }),
    {
        match self.container.get(view_id) {
            Some(v) => copy_bags(&v.sorts),
            None => {
                let r: Vec<SortMap> = Vec::new();
                proof {
                    assert(bags_seq(r@) =~= Seq::empty());
                }
                r
            },
        }
    }

    pub fn get_view_filters(&self, view_id: &str) -> (r: Vec<FilterMap>)
        requires
            self.wf(),
        ensures
            bags_seq_wf(r@),
            bags_seq(r@) == (if self@.contains_key(view_id@) {
                self@[view_id@].filters
            } else {
                Seq::empty()
            }),
    {
        let txn = TransactionMut::new();
        self.get_view_filters_with_txn(&txn, view_id)
    }

    /// Filters of a view; none when the view is absent.
    pub fn get_view_filters_with_txn(&self, txn: &TransactionMut, view_id: &str) -> (r: Vec<
        FilterMap,
    >)
        requires
            self.wf(),
        ensures
            bags_seq_wf(r@),
            bags_seq(r@) == (if self@.contains_key(view_id@) {
                self@[view_id@].filters
            } else {
                Seq::empty()
            }),
    {
        match self.container.get(view_id) {
            Some(v) => copy_bags(&v.filters),
            None => {
                let r: Vec<FilterMap> = Vec::new();
                proof {
                    assert(bags_seq(r@) =~= Seq::empty());
                }
                r
            },
        }
    }

    /// Settings of layout `layout_ty` in a view; `None` when either is absent.
    pub fn get_layout_setting(&self, view_id: &str, layout_ty: &DatabaseLayout) -> (r: Option<
        LayoutSetting,
    >)
        requires
            self.wf(),
        ensures
            r is Some <==> (self@.contains_key(view_id@) && self@[view_id@].layout_settings.contains_key(
                *layout_ty,
            )),
            r matches Some(b) ==> b.wf() && b@ == self@[view_id@].layout_settings[*layout_ty],
    {
        match self.container.get(view_id) {
            Some(v) => v.layout_settings.get(layout_ty),
            None => None,
        }
    }

    pub fn get_view(&self, view_id: &str) -> (r: Option<DatabaseView>)
        requires
            self.wf(),
        ensures
            r is None <==> !self@.contains_key(view_id@),
            r matches Some(v) ==> v.wf() && v@ == self@[view_id@],
    {
        let txn = TransactionMut::new();
        self.get_view_with_txn(&txn, view_id)
    }

    /// The view with id `view_id`.
    pub fn get_view_with_txn(&self, txn: &TransactionMut, view_id: &str) -> (r: Option<DatabaseView>)
        requires
            self.wf(),
        ensures
            r is None <==> !self@.contains_key(view_id@),
            r matches Some(v) ==> v.wf() && v@ == self@[view_id@],
    {
        match self.container.get(view_id) {
            Some(v) => Some(v.copy()),
            None => None,
        }
    }

    pub fn get_all_views(&self) -> (r: Vec<DatabaseView>)
        requires
            self.wf(),
        ensures
            forall|i: int|
                0 <= i < r@.len() ==> (#[trigger] r@[i]).wf() && self@.contains_key(r@[i].id@)
                    && r@[i]@ == self@[r@[i].id@],
            forall|k: Seq<char>| #[trigger]
                self@.contains_key(k) ==> exists|i: int| 0 <= i < r@.len() && (#[trigger] r@[i]).id@ == k,
            forall|i: int, j: int|
                0 <= i < r@.len() && 0 <= j < r@.len() && i != j ==> (#[trigger] r@[i]).id@
                    != (#[trigger] r@[j]).id@,
    {
        let txn = TransactionMut::new();
        self.get_all_views_with_txn(&txn)
    }

    /// Every view, each once.
    pub fn get_all_views_with_txn(&self, txn: &TransactionMut) -> (r: Vec<DatabaseView>)
        requires
            self.wf(),
        ensures
            forall|i: int|
                0 <= i < r@.len() ==> (#[trigger] r@[i]).wf() && self@.contains_key(r@[i].id@)
                    && r@[i]@ == self@[r@[i].id@],
            forall|k: Seq<char>| #[trigger]
                self@.contains_key(k) ==> exists|i: int| 0 <= i < r@.len() && (#[trigger] r@[i]).id@ == k,
            forall|i: int, j: int|
                0 <= i < r@.len() && 0 <= j < r@.len() && i != j ==> (#[trigger] r@[i]).id@
                    != (#[trigger] r@[j]).id@,
    {
        let entries = self.container.entries();
        let ghost items = self.container.items();
        proof {
            self.container.lemma_items_in_map();
        }
        let mut r: Vec<DatabaseView> = Vec::new();
        let mut i: usize = 0;
        while i < entries.len()
            invariant
                entries@ == items,
                items == self.container.items(),
                self.wf(),
                keys_unique(items),
                forall|j: int|
                    0 <= j < items.len() ==> self.container@.contains_key((#[trigger] items[j]).0@)
                        && self.container@[items[j].0@] == items[j].1,
                0 <= i <= items.len(),
                r@.len() == i,
                forall|j: int|
                    0 <= j < i ==> (#[trigger] r@[j]).wf() && r@[j]@ == items[j].1@ && r@[j].id@
                        == items[j].0@,
            decreases items.len() - i,
        {
            let v = &entries[i].1;
            proof {
                assert(self.container@.contains_key(items[i as int].0@));
            }
            r.push(v.copy());
            i = i + 1;
        }
        proof {
            assert forall|k: Seq<char>| #[trigger]
                self@.contains_key(k) implies exists|i: int| 0 <= i < r@.len() && (#[trigger] r@[i]).id@ == k by {
                let j = choose|j: int| 0 <= j < items.len() && (#[trigger] items[j]).0@ == k;
                assert(r@[j].id@ == k);
            }
            assert forall|a: int, b: int|
                0 <= a < r@.len() && 0 <= b < r@.len() && a != b implies (#[trigger] r@[a]).id@
                != (#[trigger] r@[b]).id@ by {
                assert(items[a].0@ != items[b].0@);
            }
            assert forall|a: int| 0 <= a < r@.len() implies (#[trigger] r@[a]).wf()
                && self@.contains_key(r@[a].id@) && r@[a]@ == self@[r@[a].id@] by {
                assert(self.container@.contains_key(items[a].0@));
            }
        }
        r
    }

    /// Layout of a view; `None` when the view is absent.
    pub fn get_view_layout(&self, view_id: &str) -> (r: Option<DatabaseLayout>)
        requires
            self.wf(),
        ensures
            r == (if self@.contains_key(view_id@) {
                Some(self@[view_id@].layout)
            } else {
                None
            }),
    {
        match self.container.get(view_id) {
            Some(v) => Some(v.layout),
            None => None,
        }
    }

    /// Row order of a view; empty when the view is absent.
    pub fn get_view_row_orders_with_txn(&self, txn: &TransactionMut, view_id: &str) -> (r: Vec<
        RowOrder,
    >)
        requires
            self.wf(),
        ensures
            r@ == (if self@.contains_key(view_id@) {
                self@[view_id@].row_orders
            } else {
                Seq::empty()
            }),
    {
        match self.container.get(view_id) {
            Some(v) => copy_row_orders(&v.row_orders),
            None => Vec::new(),
        }
    }

    /// Field order of a view; empty when the view is absent.
    pub fn get_view_field_orders_txn(&self, txn: &TransactionMut, view_id: &str) -> (r: Vec<
        FieldOrder,
    >)
        requires
            self.wf(),
        ensures
            r@ == (if self@.contains_key(view_id@) {
                self@[view_id@].field_orders
            } else {
                Seq::empty()
            }),
    {
        match self.container.get(view_id) {
            Some(v) => copy_field_orders(&v.field_orders),
            None => Vec::new(),
        }
    }

    pub fn update_view<F>(&mut self, view_id: &str, f: F)
        where
            F: FnOnce(DatabaseView) -> DatabaseView,
        requires
            old(self).wf(),
            forall|v: DatabaseView| v.wf() ==> #[trigger] f.requires((v,)),
            forall|v: DatabaseView, nv: DatabaseView| #[trigger] f.ensures((v,), nv) ==> nv.wf(),
        ensures
            final(self).wf(),
            !old(self)@.contains_key(view_id@) ==> final(self)@ == old(self)@,
            old(self)@.contains_key(view_id@) ==> final(self)@.dom() == old(self)@.dom(),
            old(self)@.contains_key(view_id@) ==> updated_by(
                f,
                old(self).stored(view_id@),
                final(self)@[view_id@],
                view_id@,
            ),
            forall|k: Seq<char>| #[trigger]
                old(self)@.contains_key(k) && k != view_id@ ==> final(self)@[k] == old(self)@[k],
    {
        let mut txn = TransactionMut::new();
        self.update_view_with_txn(&mut txn, view_id, f);
    }

    /// Replaces the view `view_id` by what `f` makes of it, keeping its id.
    /// A view that is absent (say, deleted by another replica) is left absent.
    pub fn update_view_with_txn<F>(&mut self, txn: &mut TransactionMut, view_id: &str, f: F)
        where
            F: FnOnce(DatabaseView) -> DatabaseView,
        requires
            old(self).wf(),
            forall|v: DatabaseView| v.wf() ==> #[trigger] f.requires((v,)),
            forall|v: DatabaseView, nv: DatabaseView| #[trigger] f.ensures((v,), nv) ==> nv.wf(),
        ensures
            final(self).wf(),
            !old(self)@.contains_key(view_id@) ==> final(self)@ == old(self)@ && final(txn).changes()
                == old(txn).changes(),
            old(self)@.contains_key(view_id@) ==> final(txn).changes() == old(txn).changes().push(
                view_id@,
            ),
            old(self)@.contains_key(view_id@) ==> final(self)@.dom() == old(self)@.dom(),
            old(self)@.contains_key(view_id@) ==> updated_by(
                f,
                old(self).stored(view_id@),
                final(self)@[view_id@],
                view_id@,
            ),
            forall|k: Seq<char>| #[trigger]
                old(self)@.contains_key(k) && k != view_id@ ==> final(self)@[k] == old(self)@[k],
    {
        let ghost before = self.container@;
        match self.container.remove(view_id) {
            Some(v) => {
                let mut nv = f(v);
                let ghost produced = nv;
                nv.id = view_id.to_owned();
                let ghost nm = nv@;
                self.container.insert(view_id.to_owned(), nv);
                txn.record(view_id);
                proof {
                    assert(nm == with_id(produced@, view_id@));
                    assert(self.container@ =~= before.insert(view_id@, nv));
                    assert(self@ =~= old(self)@.insert(view_id@, with_id(produced@, view_id@)));
                    assert(f.ensures((old(self).stored(view_id@),), produced));
                }
            },
            None => {
                proof {
                    assert(self.container@ =~= before);
                }
            },
        }
    }

    /// Replaces every view by what `f` makes of it, keeping ids.
    pub fn update_all_views_with_txn<F>(&mut self, txn: &mut TransactionMut, f: F)
        where
            F: Fn(DatabaseView) -> DatabaseView,
        requires
            old(self).wf(),
            forall|v: DatabaseView| v.wf() ==> #[trigger] f.requires((v,)),
            forall|v: DatabaseView, nv: DatabaseView| #[trigger] f.ensures((v,), nv) ==> nv.wf(),
        ensures
            final(self).wf(),
            final(self)@.dom() == old(self)@.dom(),
            forall|k: Seq<char>| #[trigger]
                old(self)@.contains_key(k) ==> updated_by(f, old(self).stored(k), final(self)@[k], k),
    {
        let ghost start = self.container@;
        let ghost items = self.container.items();
        let mut keys: Vec<String> = Vec::new();
        {
            let entries = self.container.entries();
            let mut i: usize = 0;
            while i < entries.len()
                invariant
                    entries@ == items,
                    0 <= i <= items.len(),
                    keys@.len() == i,
                    forall|j: int| 0 <= j < i ==> (#[trigger] keys@[j])@ == items[j].0@,
                decreases items.len() - i,
            {
                keys.push(entries[i].0.clone());
                i = i + 1;
            }
        }
        proof {
            assert(keys_unique(items));
            assert(self.container.items() == items);
        }
        let n = keys.len();
        let mut i: usize = 0;
        while i < n
            invariant
                n == keys@.len(),
                n == items.len(),
                keys_unique(items),
                forall|j: int| 0 <= j < n ==> (#[trigger] keys@[j])@ == items[j].0@,
                forall|k: Seq<char>| #[trigger]
                    start.contains_key(k) ==> exists|j: int| 0 <= j < n && (#[trigger] items[j]).0@ == k,
                start == old(self).container@,
                start == crate::keyed::as_map(items),
                forall|v: DatabaseView| v.wf() ==> #[trigger] f.requires((v,)),
                forall|v: DatabaseView, nv: DatabaseView| #[trigger] f.ensures((v,), nv) ==> nv.wf(),
                0 <= i <= n,
                self.wf(),
                self.container@.dom() == start.dom(),
                forall|j: int|
                    i <= j < n ==> self.container@[(#[trigger] keys@[j])@] == start[keys@[j]@],
                forall|j: int|
                    0 <= j < i ==> updated_by(f, start[(#[trigger] keys@[j])@], self@[keys@[j]@], keys@[j]@),
            decreases n - i,
        {
            let key = &keys[i];
            let ghost k = key@;
            let ghost before = self.container@;
            let ghost before_model = self@;
            proof {
                assert(before_model == views_model(before));
                assert(self.container@[keys@[i as int]@] == start[keys@[i as int]@]);
                assert(start.contains_key(k)) by {
                    assert(crate::keyed::has_key(items, k)) by {
                        assert(items[i as int].0@ == k);
                    }
                }
            }
            let v = match self.container.remove(key.as_str()) {
                Some(v) => v,
                None => {
                    proof {
                        assert(false);
                    }
                    return;
                },
            };
            proof {
                assert(before.contains_key(k));
                assert(before[k].wf());
                assert(v == start[k]);
            }
            let mut nv = f(v);
            let ghost produced = nv;
            proof {
                assert(f.ensures((v,), produced));
                assert(produced.wf());
            }
            nv.id = key.clone();
            self.container.insert(key.clone(), nv);
            txn.record(key.as_str());
            proof {
                assert(self.container@ =~= before.insert(k, nv));
                assert(self.container@.dom() =~= start.dom());
                assert forall|j: int| i + 1 <= j < n implies self.container@[(#[trigger] keys@[j])@]
                    == start[keys@[j]@] by {
                    assert(items[j].0@ != items[i as int].0@);
                }
                assert forall|j: int| 0 <= j < i + 1 implies updated_by(
                    f,
                    start[(#[trigger] keys@[j])@],
                    self@[keys@[j]@],
                    keys@[j]@,
                ) by {
                    if j == i {
                        assert(f.ensures((start[keys@[j]@],), produced));
                        assert(self@[keys@[j]@] == with_id(produced@, keys@[j]@));
                    } else {
                        assert(items[j].0@ != items[i as int].0@);
                        assert(self@[keys@[j]@] == views_model(before)[keys@[j]@]);
                    }
                }
            }
            i = i + 1;
        }
        proof {
            assert(self@.dom() =~= old(self)@.dom());
            assert forall|k: Seq<char>| #[trigger] old(self)@.contains_key(k) implies updated_by(
                f,
                old(self).stored(k),
                self@[k],
                k,
            ) by {
                let j = choose|j: int| 0 <= j < n && (#[trigger] items[j]).0@ == k;
                assert(keys@[j]@ == k);
            }
        }
    }

    /// An equal, independent registry.
    pub fn copy(&self) -> (r: Self)
        requires
            self.wf(),
        ensures
            r.wf(),
            r@ == self@,
    {
        let all = self.get_all_views();
        let mut r = ViewMap::new();
        let mut i: usize = 0;
        while i < all.len()
            invariant
                self.wf(),
                0 <= i <= all@.len(),
                forall|t: int|
                    0 <= t < all@.len() ==> (#[trigger] all@[t]).wf() && self@.contains_key(
                        all@[t].id@,
                    ) && all@[t]@ == self@[all@[t].id@],
                forall|a: int, b: int|
                    0 <= a < all@.len() && 0 <= b < all@.len() && a != b ==> (#[trigger] all@[a]).id@
                        != (#[trigger] all@[b]).id@,
                r.wf(),
                forall|k: Seq<char>| #[trigger]
                    r@.contains_key(k) <==> exists|t: int| 0 <= t < i && (#[trigger] all@[t]).id@ == k,
                forall|k: Seq<char>| #[trigger] r@.contains_key(k) ==> r@[k] == self@[k],
            decreases all@.len() - i,
        {
            let v = all[i].copy();
            let ghost k = v.id@;
            r.insert_view(v);
            proof {
                assert(all@[i as int].id@ == k);
                assert forall|x: Seq<char>| #[trigger] r@.contains_key(x) <==> exists|t: int|
                    0 <= t < i + 1 && (#[trigger] all@[t]).id@ == x by {
                    if x == k {
                        assert(all@[i as int].id@ == x);
                    }
                }
            }
            i = i + 1;
        }
        proof {
            assert(r@ =~= self@) by {
                assert forall|k: Seq<char>| #[trigger] self@.contains_key(k) implies r@.contains_key(k) by {
                    let t = choose|t: int| 0 <= t < all@.len() && (#[trigger] all@[t]).id@ == k;
                }
            }
        }
        r
    }

    pub fn delete_view(&mut self, view_id: &str)
        requires
            old(self).wf(),
        ensures
            final(self).wf(),
            final(self)@ == old(self)@.remove(view_id@),
    {
        let mut txn = TransactionMut::new();
        self.delete_view_with_txn(&mut txn, view_id);
    }

    /// Removes every view.
    pub fn clear_with_txn(&mut self, txn: &mut TransactionMut)
        ensures
            final(self).wf(),
            final(self)@ == Map::<Seq<char>, DatabaseViewModel>::empty(),
    {
        self.container.clear();
        proof {
            assert(self@ =~= Map::<Seq<char>, DatabaseViewModel>::empty());
        }
    }

    /// Removes the view `view_id`, if present.
    pub fn delete_view_with_txn(&mut self, txn: &mut TransactionMut, view_id: &str)
        requires
            old(self).wf(),
        ensures
            final(self).wf(),
            final(self)@ == old(self)@.remove(view_id@),
            final(txn).changes() == old(txn).changes().push(view_id@),
    {
        self.container.remove(view_id);
        txn.record(view_id);
        proof {
            assert(self@ =~= old(self)@.remove(view_id@));
        }
    }
}

} // verus!
